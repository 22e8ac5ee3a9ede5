//! Persisted user preferences as plain data: the selected theme and the
//! translation source chosen per channel. Reading and writing their
//! documents is the caller's side; this module owns the defaults used when a
//! document is absent and the per-channel lookup the poller relies on.
use vstd::prelude::*;

verus! {

/// The selected interface theme.
#[derive(Clone, Debug)]
pub struct ThemeSelected {
    pub primary_color: String,
}

impl Default for ThemeSelected {
    /// The accent color used when no theme document exists.
    fn default() -> (r: Self)
        ensures
            r.primary_color@ == "#6463b6"@,
    {
        proof {
            reveal_strlit("#6463b6");
        }
        ThemeSelected { primary_color: ("#6463b6").to_owned() }
    }
}

/// The translation source chosen for one channel.
#[derive(Clone, Debug)]
pub struct TranslationSetting {
    /// Download URL of the chosen source, if any.
    pub link: Option<String>,
    /// Whether the English-settings variant was chosen.
    pub settings_en: bool,
}

impl Default for TranslationSetting {
    /// No source chosen, French settings.
    fn default() -> (r: Self)
        ensures
            r.link is None,
            r.settings_en == false,
    {
        TranslationSetting { link: None, settings_en: false }
    }
}

/// The per-channel translation choices, keyed by channel label. At most one
/// entry per channel once maintained through `set`; lookups return the first
/// match.
#[derive(Clone, Debug)]
pub struct TranslationsSelected {
    pub entries: Vec<(String, TranslationSetting)>,
}

impl TranslationsSelected {
    /// No choices made yet: the default used when no document exists.
    pub fn new() -> (r: Self)
        ensures
            r.entries@.len() == 0,
    {
        TranslationsSelected { entries: Vec::new() }
    }

    /// The setting chosen for a channel, if any: the first entry with this
    /// label.
    pub fn get(&self, channel: &str) -> (r: Option<&TranslationSetting>)
        ensures
            match r {
                Some(s) => exists|j: int|
                    0 <= j < self.entries@.len() && #[trigger] self.entries@[j].0@ == channel@ && (
                    forall|t: int| 0 <= t < j ==> self.entries@[t].0@ != channel@) && *s
                        == self.entries@[j].1,
                None => forall|j: int|
                    0 <= j < self.entries@.len() ==> #[trigger] self.entries@[j].0@ != channel@,
            },
    {
        let key = channel.to_owned();
        let mut k: usize = 0;
        while k < self.entries.len()
            invariant
                0 <= k <= self.entries@.len(),
                key@ == channel@,
                forall|t: int| 0 <= t < k ==> #[trigger] self.entries@[t].0@ != channel@,
            decreases self.entries@.len() - k,
        {
            if self.entries[k].0.eq(&key) {
                return Some(&self.entries[k].1);
            }
            k += 1;
        }
        None
    }

    /// Record the choice for a channel, replacing any earlier entry for it.
    pub fn set(&mut self, channel: String, setting: TranslationSetting)
        ensures
            final(self).entries@.len() >= 1,
            final(self).entries@.last().0@ == channel@,
            final(self).entries@.last().1 == setting,
            final(self).entries@.drop_last() == old(self).entries@.filter(
                |e: (String, TranslationSetting)| e.0@ != channel@,
            ),
            forall|j: int|
                0 <= j < final(self).entries@.len() - 1 ==> (#[trigger] final(self).entries@[j]).0@
                    != channel@,
    {
        let ghost orig = self.entries@;
        let ghost keep = |e: (String, TranslationSetting)| e.0@ != channel@;
        let mut i: usize = 0;
        let ghost j: int = 0;
        proof {
            reveal(Seq::filter);
            assert(orig.subrange(0, 0).filter(keep) =~= Seq::<
                (String, TranslationSetting),
            >::empty());
            assert(self.entries@ =~= orig.subrange(0, 0).filter(keep) + orig.subrange(
                0,
                orig.len() as int,
            ));
        }
        while i < self.entries.len()
            invariant
                0 <= j <= orig.len(),
                i == orig.subrange(0, j).filter(keep).len(),
                self.entries@ == orig.subrange(0, j).filter(keep) + orig.subrange(
                    j,
                    orig.len() as int,
                ),
                keep == |e: (String, TranslationSetting)| e.0@ != channel@,
            decreases orig.len() - j,
        {
            proof {
                assert(orig.subrange(j, orig.len() as int).len() > 0);
                assert(self.entries@[i as int] == orig[j]);
            }
            let matches = self.entries[i].0.eq(&channel);
            proof {
                reveal(Seq::filter);
                assert(orig.subrange(0, j + 1) =~= orig.subrange(0, j).push(orig[j]));
                assert(orig.subrange(0, j + 1).drop_last() =~= orig.subrange(0, j));
                if keep(orig[j]) {
                    assert(orig.subrange(0, j + 1).filter(keep) =~= orig.subrange(0, j).filter(
                        keep,
                    ).push(orig[j]));
                } else {
                    assert(orig.subrange(0, j + 1).filter(keep) =~= orig.subrange(0, j).filter(
                        keep,
                    ));
                }
            }
            if matches {
                self.entries.remove(i);
                proof {
                    assert(self.entries@ =~= orig.subrange(0, j + 1).filter(keep) + orig.subrange(
                        j + 1,
                        orig.len() as int,
                    ));
                }
            } else {
                i += 1;
                proof {
                    assert(self.entries@ =~= orig.subrange(0, j + 1).filter(keep) + orig.subrange(
                        j + 1,
                        orig.len() as int,
                    ));
                }
            }
            proof {
                j = j + 1;
            }
        }
        proof {
            assert(orig.subrange(j, orig.len() as int).len() == 0);
            assert(j == orig.len());
            assert(orig.subrange(0, orig.len() as int) =~= orig);
            assert(self.entries@ =~= orig.filter(keep));
        }
        self.entries.push((channel, setting));
        proof {
            assert(final(self).entries@.drop_last() =~= orig.filter(keep));
            assert forall|t: int| 0 <= t < orig.filter(keep).len() implies #[trigger] orig.filter(
                keep,
            )[t].0@ != channel@ by {
                orig.lemma_filter_pred(keep, t);
            }
        }
    }
}

} // verus!
