//! Naming and routing decisions for the backup features and the updater:
//! archive entry names, restore destinations, sanitized character file
//! names, cloud object names, and the installer invocation script. All file,
//! archive and network work runs on the caller's side against the exact
//! strings decided here.
use vstd::prelude::*;

use vstd::string::StringExecFns;

use crate::text::chars_to_string;
use crate::text::push_char;
use crate::text::spec_digits;
use crate::text::str_chars;
use crate::text::u64_digits;

verus! {

/// Characters a character-file title may not contain on disk.
pub open spec fn is_forbidden_char(c: char) -> bool {
    c == '<' || c == '>' || c == ':' || c == '"' || c == '/' || c == '\\' || c == '|' || c == '?'
        || c == '*'
}

pub open spec fn spec_sanitize(s: Seq<char>) -> Seq<char> {
    s.map_values(
        |c: char|
            if is_forbidden_char(c) {
                '_'
            } else {
                c
            },
    )
}

/// A downloaded character's title with every filesystem-hostile character
/// replaced by an underscore.
pub fn sanitize_title(title: &str) -> (r: String)
    ensures
        r@ == spec_sanitize(title@),
{
    let chars = str_chars(title);
    let mut out: Vec<char> = Vec::new();
    let mut k: usize = 0;
    while k < chars.len()
        invariant
            0 <= k <= chars@.len(),
            chars@ == title@,
            out@.len() == k,
            forall|t: int|
                0 <= t < k ==> out@[t] == (if is_forbidden_char(title@[t]) {
                    '_'
                } else {
                    title@[t]
                }),
        decreases chars@.len() - k,
    {
        let c = chars[k];
        if c == '<' || c == '>' || c == ':' || c == '"' || c == '/' || c == '\\' || c == '|' || c
            == '?' || c == '*' {
            out.push('_');
        } else {
            out.push(c);
        }
        k += 1;
    }
    proof {
        assert(out@ =~= spec_sanitize(title@));
    }
    chars_to_string(&out)
}

/// The file name a downloaded character is stored under.
pub fn character_file_name(title: &str) -> (r: String)
    ensures
        r@ == spec_sanitize(title@) + (".chf")@,
{
    let mut out = sanitize_title(title);
    out.append(".chf");
    out
}

/// Index just after the last slash, or 0 when there is none.
pub open spec fn after_last_slash(s: Seq<char>, i: int) -> int
    decreases i,
{
    if i <= 0 || i > s.len() {
        0
    } else if s[i - 1] == '/' {
        i
    } else {
        after_last_slash(s, i - 1)
    }
}

/// The final segment of a URL: everything after its last slash, the whole
/// URL when it has none.
pub fn file_name_from_url(url: &str) -> (r: String)
    ensures
        r@ == url@.subrange(after_last_slash(url@, url@.len() as int), url@.len() as int),
{
    let chars = str_chars(url);
    let mut i: usize = chars.len();
    while i > 0 && chars[i - 1] != '/'
        invariant
            0 <= i <= chars@.len(),
            chars@ == url@,
            after_last_slash(url@, url@.len() as int) == after_last_slash(url@, i as int),
        decreases i,
    {
        i -= 1;
    }
    proof {
        assert(after_last_slash(url@, i as int) == i);
    }
    let mut out: Vec<char> = Vec::new();
    let mut k = i;
    while k < chars.len()
        invariant
            i <= k <= chars@.len(),
            chars@ == url@,
            out@ == url@.subrange(i as int, k as int),
        decreases chars@.len() - k,
    {
        out.push(chars[k]);
        proof {
            assert(out@ =~= url@.subrange(i as int, k + 1));
        }
        k += 1;
    }
    proof {
        assert(out@ =~= url@.subrange(i as int, url@.len() as int));
    }
    chars_to_string(&out)
}

/// `s` ends with the suffix `x`.
pub open spec fn ends_with_chars(s: Seq<char>, x: Seq<char>) -> bool {
    x.len() <= s.len() && s.subrange(s.len() - x.len(), s.len() as int) == x
}

fn ends_with_msi(name: &Vec<char>) -> (r: bool)
    ensures
        r == ends_with_chars(name@, seq!['.', 'm', 's', 'i']),
{
    let n = name.len();
    if n < 4 {
        return false;
    }
    let r = name[n - 4] == '.' && name[n - 3] == 'm' && name[n - 2] == 's' && name[n - 1] == 'i';
    proof {
        if r {
            assert(name@.subrange(name@.len() - 4, name@.len() as int) =~= seq![
                '.',
                'm',
                's',
                'i',
            ]);
        } else {
            assert(name@.subrange(name@.len() - 4, name@.len() as int)
                =~= seq![name@[name@.len() - 4], name@[name@.len() - 3], name@[name@.len() - 2], name@[name@.len() - 1]]);
        }
    }
    r
}

/// The silent-install arguments for a downloaded installer: the quiet
/// switches of the platform installer format for `.msi` files, the generic
/// silent switch otherwise.
pub fn installer_args_for(file_name: &str) -> (r: &'static str)
    ensures
        ends_with_chars(file_name@, seq!['.', 'm', 's', 'i']) ==> r@ == ("/quiet /norestart")@,
        !ends_with_chars(file_name@, seq!['.', 'm', 's', 'i']) ==> r@ == ("/S")@,
{
    let chars = str_chars(file_name);
    if ends_with_msi(&chars) {
        "/quiet /norestart"
    } else {
        "/S"
    }
}

/// A number rendered in decimal, as a string.
pub fn u64_string(n: u64) -> (r: String)
    ensures
        r@ == spec_digits(n as int).map_values(|b: u8| b as char),
{
    let digits = u64_digits(n);
    let mut out = String::new();
    let mut k: usize = 0;
    while k < digits.len()
        invariant
            0 <= k <= digits@.len(),
            digits@ == spec_digits(n as int),
            out@.len() == k,
            forall|t: int| 0 <= t < k ==> out@[t] == (digits@[t] as char),
        decreases digits@.len() - k,
    {
        push_char(&mut out, digits[k] as char);
        k += 1;
    }
    proof {
        assert(out@ =~= spec_digits(n as int).map_values(|b: u8| b as char));
    }
    out
}

/// The name of a character-backup folder created at a timestamp.
pub fn backup_folder_name(timestamp: &str) -> (r: String)
    ensures
        r@ == ("backup_customcharacters_")@ + timestamp@,
{
    let mut out = String::from_str("backup_customcharacters_");
    out.append(timestamp);
    out
}

/// The object name a user backup is uploaded under:
/// `<user>/backup_<version>_<timestamp>.zip`.
pub fn backup_object_name(user_id: &str, version: &str, timestamp: &str) -> (r: String)
    ensures
        r@ == user_id@ + ("/backup_")@ + version@ + ("_")@ + timestamp@ + (".zip")@,
{
    let mut out = user_id.to_owned();
    out.append("/backup_");
    out.append(version);
    out.append("_");
    out.append(timestamp);
    out.append(".zip");
    out
}

/// The storage API path of an object in a bucket.
pub fn storage_object_path(bucket: &str, name: &str) -> (r: String)
    ensures
        r@ == ("/storage/v1/object/")@ + bucket@ + ("/")@ + name@,
{
    let mut out = String::from_str("/storage/v1/object/");
    out.append(bucket);
    out.append("/");
    out.append(name);
    out
}

/// The storage API path that lists a bucket.
pub fn storage_list_path(bucket: &str) -> (r: String)
    ensures
        r@ == ("/storage/v1/object/list/")@ + bucket@,
{
    let mut out = String::from_str("/storage/v1/object/list/");
    out.append(bucket);
    out
}

/// The listing prefix that selects one user's backups.
pub fn user_prefix(user_id: &str) -> (r: String)
    ensures
        r@ == user_id@ + ("/")@,
{
    let mut out = user_id.to_owned();
    out.append("/");
    out
}

/// The local file name a fetched backup is saved under.
pub fn downloaded_backup_name(timestamp: &str) -> (r: String)
    ensures
        r@ == ("downloaded_backup_")@ + timestamp@ + (".zip")@,
{
    let mut out = String::from_str("downloaded_backup_");
    out.append(timestamp);
    out.append(".zip");
    out
}

/// The temporary file name a fresh user backup is written under.
pub fn user_backup_zip_name(timestamp: &str) -> (r: String)
    ensures
        r@ == ("user_backup_")@ + timestamp@ + (".zip")@,
{
    let mut out = String::from_str("user_backup_");
    out.append(timestamp);
    out.append(".zip");
    out
}

/// An archive entry name formed from a relative path: backslashes become
/// forward slashes.
pub open spec fn spec_zip_entry_name(s: Seq<char>) -> Seq<char> {
    s.map_values(
        |c: char|
            if c == '\\' {
                '/'
            } else {
                c
            },
    )
}

pub fn zip_entry_name(rel_path: &str) -> (r: String)
    ensures
        r@ == spec_zip_entry_name(rel_path@),
{
    let chars = str_chars(rel_path);
    let mut out: Vec<char> = Vec::new();
    let mut k: usize = 0;
    while k < chars.len()
        invariant
            0 <= k <= chars@.len(),
            chars@ == rel_path@,
            out@.len() == k,
            forall|t: int|
                0 <= t < k ==> out@[t] == (if rel_path@[t] == '\\' {
                    '/'
                } else {
                    rel_path@[t]
                }),
        decreases chars@.len() - k,
    {
        let c = chars[k];
        if c == '\\' {
            out.push('/');
        } else {
            out.push(c);
        }
        k += 1;
    }
    proof {
        assert(out@ =~= spec_zip_entry_name(rel_path@));
    }
    chars_to_string(&out)
}

/// The directory entries an archive needs ahead of a file entry: one per
/// slash in the entry name, each the prefix up to and including that slash.
pub open spec fn slash_prefixes(s: Seq<char>, i: int) -> Seq<Seq<char>>
    decreases s.len() - i,
{
    if i < 0 || i >= s.len() {
        Seq::empty()
    } else if s[i] == '/' {
        seq![s.subrange(0, i + 1)] + slash_prefixes(s, i + 1)
    } else {
        slash_prefixes(s, i + 1)
    }
}

pub fn zip_dir_entries_for(entry_name: &str) -> (out: Vec<String>)
    ensures
        out.deep_view() == slash_prefixes(entry_name@, 0),
{
    let chars = str_chars(entry_name);
    let mut out: Vec<String> = Vec::new();
    let mut i: usize = 0;
    proof {
        assert(out.deep_view() =~= Seq::<Seq<char>>::empty());
        assert(Seq::<Seq<char>>::empty() + slash_prefixes(entry_name@, 0) =~= slash_prefixes(
            entry_name@,
            0,
        ));
    }
    while i < chars.len()
        invariant
            0 <= i <= chars@.len(),
            chars@ == entry_name@,
            slash_prefixes(entry_name@, 0) == out.deep_view() + slash_prefixes(
                entry_name@,
                i as int,
            ),
        decreases chars@.len() - i,
    {
        let ghost outv = out.deep_view();
        if chars[i] == '/' {
            let mut pref: Vec<char> = Vec::new();
            let mut k: usize = 0;
            while k < chars.len() && k <= i
                invariant
                    0 <= k <= i + 1 <= chars@.len(),
                    i < chars@.len(),
                    chars@ == entry_name@,
                    pref@ == entry_name@.subrange(0, k as int),
                decreases i + 1 - k,
            {
                pref.push(chars[k]);
                proof {
                    assert(pref@ =~= entry_name@.subrange(0, k + 1));
                }
                k += 1;
            }
            out.push(chars_to_string(&pref));
            proof {
                assert(out.deep_view() =~= outv.push(entry_name@.subrange(0, i + 1)));
                assert(outv + (seq![entry_name@.subrange(0, i + 1)] + slash_prefixes(
                    entry_name@,
                    i + 1,
                )) =~= out.deep_view() + slash_prefixes(entry_name@, i + 1));
            }
        }
        i += 1;
    }
    proof {
        assert(out.deep_view() + slash_prefixes(entry_name@, chars@.len() as int)
            =~= out.deep_view());
    }
    out
}

/// Where an archive entry lands when a backup is restored.
pub enum RestoreTarget {
    /// The entry is skipped: the archive root folder or an empty name.
    SkipEntry,
    /// The configuration file at the installation root.
    UserCfg,
    /// A path under the installation's `user` folder.
    UserRelative(String),
    /// Any other entry, placed under the installation root as named.
    Other(String),
}

/// Decide where an archive entry lands when a backup is restored: the
/// archive's root folder and empty names are skipped, the configuration file
/// goes to the installation root, entries under `user/` go to the same place
/// under the installation's `user` folder, and anything else lands under the
/// installation root as named.
pub fn restore_target_for(file_name: &str) -> (r: RestoreTarget)
    ensures
        ({
            let n = file_name@;
            &&& (n == ("user/")@ || n.len() == 0) ==> r is SkipEntry
            &&& n == ("user.cfg")@ ==> r is UserCfg
            &&& (n != ("user/")@ && n.len() > 0 && n != ("user.cfg")@ && n.len() >= 5 && n.subrange(
                0,
                5,
            ) == ("user/")@) ==> (r matches RestoreTarget::UserRelative(rel) && rel@ == n.subrange(
                5,
                n.len() as int,
            ))
            &&& (n.len() > 0 && n != ("user.cfg")@ && !(n.len() >= 5 && n.subrange(0, 5) == (
            "user/")@)) ==> (r matches RestoreTarget::Other(o) && o@ == n)
        }),
{
    proof {
        reveal_strlit("user/");
        reveal_strlit("user.cfg");
    }
    let chars = str_chars(file_name);
    if chars.len() == 0 {
        return RestoreTarget::SkipEntry;
    }
    let is_user_cfg = chars.len() == 8 && chars[0] == 'u' && chars[1] == 's' && chars[2] == 'e'
        && chars[3] == 'r' && chars[4] == '.' && chars[5] == 'c' && chars[6] == 'f' && chars[7]
        == 'g';
    proof {
        if is_user_cfg {
            assert(file_name@ =~= ("user.cfg")@);
        } else {
            if file_name@.len() == 8 {
                assert(file_name@ =~= seq![
                    file_name@[0],
                    file_name@[1],
                    file_name@[2],
                    file_name@[3],
                    file_name@[4],
                    file_name@[5],
                    file_name@[6],
                    file_name@[7],
                ]);
            }
            assert(file_name@ != ("user.cfg")@);
        }
    }
    if is_user_cfg {
        return RestoreTarget::UserCfg;
    }
    let has_user_prefix = chars.len() >= 5 && chars[0] == 'u' && chars[1] == 's' && chars[2] == 'e'
        && chars[3] == 'r' && chars[4] == '/';
    proof {
        if chars@.len() >= 5 {
            if has_user_prefix {
                assert(file_name@.subrange(0, 5) =~= ("user/")@);
            } else {
                assert(file_name@.subrange(0, 5) =~= seq![
                    file_name@[0],
                    file_name@[1],
                    file_name@[2],
                    file_name@[3],
                    file_name@[4],
                ]);
                assert(file_name@.subrange(0, 5) != ("user/")@);
            }
        }
    }
    if has_user_prefix {
        if chars.len() == 5 {
            proof {
                assert(file_name@ =~= ("user/")@);
            }
            return RestoreTarget::SkipEntry;
        }
        proof {
            assert(file_name@.len() != ("user/")@.len());
            assert(file_name@ != ("user/")@);
        }
        let mut rel: Vec<char> = Vec::new();
        let mut k: usize = 5;
        while k < chars.len()
            invariant
                5 <= k <= chars@.len(),
                chars@ == file_name@,
                rel@ == file_name@.subrange(5, k as int),
            decreases chars@.len() - k,
        {
            rel.push(chars[k]);
            proof {
                assert(rel@ =~= file_name@.subrange(5, k + 1));
            }
            k += 1;
        }
        return RestoreTarget::UserRelative(chars_to_string(&rel));
    }
    proof {
        if file_name@.len() == 5 {
            assert(file_name@ =~= seq![
                file_name@[0],
                file_name@[1],
                file_name@[2],
                file_name@[3],
                file_name@[4],
            ]);
        }
        assert(file_name@ != ("user/")@);
    }
    RestoreTarget::Other(file_name.to_owned())
}

/// The wait command placed at the head of the update script: a countdown of
/// `delay` seconds, or nothing when the update is immediate.
pub fn update_delay_command(delay: u64) -> (r: String)
    ensures
        delay > 0 ==> r@ == ("timeout /t ")@ + spec_digits(delay as int).map_values(
            |b: u8| b as char,
        ) + (" /nobreak >nul")@,
        delay == 0 ==> r@.len() == 0,
{
    if delay == 0 {
        String::new()
    } else {
        let mut out = String::from_str("timeout /t ");
        let digits = u64_string(delay);
        out.append(digits.as_str());
        out.append(" /nobreak >nul");
        out
    }
}

/// The script that performs an update: wait out the delay, stop the running
/// process, run the installer silently, and start the application again.
pub fn update_script_for(
    delay_command: &str,
    exe_name: &str,
    installer_path: &str,
    installer_args: &str,
    exe_path: &str,
) -> (r: String)
    ensures
        r@ == ("@echo off\nchcp 65001 >nul 2>&1\n")@ + delay_command@ + ("\ntaskkill /F /IM \"")@
            + exe_name@ + ("\" >nul 2>&1\ntimeout /t 1 /nobreak >nul\nstart /wait \"\" \"")@
            + installer_path@ + ("\" ")@ + installer_args@ + (
        "\ntimeout /t 2 /nobreak >nul\nstart \"\" \"")@ + exe_path@ + ("\"\n")@,
{
    let mut out = String::from_str("@echo off\nchcp 65001 >nul 2>&1\n");
    out.append(delay_command);
    out.append("\ntaskkill /F /IM \"");
    out.append(exe_name);
    out.append("\" >nul 2>&1\ntimeout /t 1 /nobreak >nul\nstart /wait \"\" \"");
    out.append(installer_path);
    out.append("\" ");
    out.append(installer_args);
    out.append("\ntimeout /t 2 /nobreak >nul\nstart \"\" \"");
    out.append(exe_path);
    out.append("\"\n");
    out
}

/// A path as written into the launcher script's quoted command: every
/// backslash doubled.
pub open spec fn double_bs_char(c: char) -> Seq<char> {
    if c == '\\' {
        seq!['\\', '\\']
    } else {
        seq![c]
    }
}

pub open spec fn spec_double_bs_from(s: Seq<char>, i: int) -> Seq<char>
    decreases s.len() - i,
{
    if i < 0 || i >= s.len() {
        Seq::empty()
    } else {
        double_bs_char(s[i]) + spec_double_bs_from(s, i + 1)
    }
}

/// The silent launcher that runs the update script without a visible
/// window.
pub fn vbs_launcher_for(batch_path: &str) -> (r: String)
    ensures
        r@ == ("Set WshShell = CreateObject(\"WScript.Shell\")\nWshShell.Run \"cmd /c \"\"")@
            + spec_double_bs_from(batch_path@, 0) + (
        "\"\"\", 0, False\nSet WshShell = Nothing\n")@,
{
    let chars = str_chars(batch_path);
    let mut escaped = String::new();
    let mut k: usize = 0;
    while k < chars.len()
        invariant
            0 <= k <= chars@.len(),
            chars@ == batch_path@,
            spec_double_bs_from(batch_path@, 0) == escaped@ + spec_double_bs_from(
                batch_path@,
                k as int,
            ),
        decreases chars@.len() - k,
    {
        let ghost before = escaped@;
        let c = chars[k];
        if c == '\\' {
            push_char(&mut escaped, '\\');
            push_char(&mut escaped, '\\');
        } else {
            push_char(&mut escaped, c);
        }
        proof {
            assert(escaped@ =~= before + double_bs_char(batch_path@[k as int]));
            assert(before + double_bs_char(batch_path@[k as int]) + spec_double_bs_from(
                batch_path@,
                k + 1,
            ) =~= before + (double_bs_char(batch_path@[k as int]) + spec_double_bs_from(
                batch_path@,
                k + 1,
            )));
        }
        k += 1;
    }
    proof {
        assert(escaped@ + spec_double_bs_from(batch_path@, chars@.len() as int) =~= escaped@);
    }
    let mut out = String::from_str("Set WshShell = CreateObject(\"WScript.Shell\")\nWshShell.Run \"cmd /c \"\"");
    out.append(escaped.as_str());
    out.append("\"\"\", 0, False\nSet WshShell = Nothing\n");
    out
}

/// Whether an archive entry names a directory.
pub fn entry_is_directory(file_name: &str) -> (r: bool)
    ensures
        r == (file_name@.len() > 0 && file_name@.last() == '/'),
{
    let chars = str_chars(file_name);
    chars.len() > 0 && chars[chars.len() - 1] == '/'
}

} // verus!
