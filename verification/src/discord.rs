//! The Discord presence session as a state machine: whether a client
//! connection is held, whether it is believed live, and which activity is
//! currently shown. The IPC calls themselves run on the caller's side; every
//! transition here takes the call's outcome and is exact about the state
//! that results, so the session can never believe in a connection whose
//! setup failed.
use vstd::prelude::*;

use vstd::string::StringExecFns;

verus! {

/// An activity as shown on the user's profile.
#[derive(Clone, Debug)]
pub struct DiscordActivity {
    pub state: Option<String>,
    pub details: Option<String>,
    pub large_image: Option<String>,
    pub large_text: Option<String>,
    pub small_image: Option<String>,
    pub small_text: Option<String>,
}

/// The connection status reported to the interface.
pub struct DiscordStatus {
    pub connected: bool,
    pub activity: Option<DiscordActivity>,
}

/// The session's in-memory state.
pub struct DiscordSession {
    /// A client connection is held.
    pub has_client: bool,
    /// The connection is believed live.
    pub connected: bool,
    /// The activity currently shown, if any.
    pub current_activity: Option<DiscordActivity>,
}

impl DiscordSession {
    /// Before any connection attempt: no client, not connected, nothing
    /// shown.
    pub fn new() -> (r: Self)
        ensures
            !r.has_client,
            !r.connected,
            r.current_activity is None,
    {
        DiscordSession { has_client: false, connected: false, current_activity: None }
    }

    /// Record a connection attempt's outcome. An attempt is only made while
    /// disconnected; on success the session holds a live client, on failure
    /// it is unchanged.
    pub fn on_connect(&mut self, ok: bool) -> (r: Result<bool, String>)
        ensures
            old(self).connected ==> *final(self) == *old(self) && r == Result::<
                bool,
                String,
            >::Ok(true),
            !old(self).connected && ok ==> final(self).has_client && final(self).connected
                && final(self).current_activity == old(self).current_activity && r == Result::<
                bool,
                String,
            >::Ok(true),
            !old(self).connected && !ok ==> *final(self) == *old(self) && r is Err,
    {
        if self.connected {
            Ok(true)
        } else if ok {
            self.has_client = true;
            self.connected = true;
            Ok(true)
        } else {
            Err(("unable to connect; check that the client is open").to_owned())
        }
    }

    /// Drop the connection and forget the shown activity.
    pub fn disconnect(&mut self)
        ensures
            !final(self).has_client,
            !final(self).connected,
            final(self).current_activity is None,
    {
        self.has_client = false;
        self.connected = false;
        self.current_activity = None;
    }

    /// Record the outcome of showing an activity. Rejected while
    /// disconnected; a failed call means the connection died, so the session
    /// marks itself disconnected.
    pub fn on_set_activity(&mut self, activity: DiscordActivity, ok: bool) -> (r: Result<
        (),
        String,
    >)
        ensures
            !old(self).connected ==> *final(self) == *old(self) && r is Err,
            old(self).connected && ok ==> final(self).connected
                && old(self).has_client == final(self).has_client
                && final(self).current_activity == Some(activity) && r is Ok,
            old(self).connected && !ok ==> !final(self).connected && final(self).current_activity
                == old(self).current_activity && r is Err,
    {
        if !self.connected {
            return Err(("not connected").to_owned());
        }
        if ok {
            self.current_activity = Some(activity);
            Ok(())
        } else {
            self.connected = false;
            Err(("connection lost").to_owned())
        }
    }

    /// Record the outcome of clearing the shown activity. Rejected while
    /// disconnected; on success nothing is shown any more.
    pub fn on_clear_activity(&mut self, ok: bool) -> (r: Result<(), String>)
        ensures
            !old(self).connected ==> *final(self) == *old(self) && r is Err,
            old(self).connected && ok ==> final(self).connected == old(self).connected
                && final(self).current_activity is None && r is Ok,
            old(self).connected && !ok ==> *final(self) == *old(self) && r is Err,
    {
        if !self.connected {
            return Err(("not connected").to_owned());
        }
        if ok {
            self.current_activity = None;
            Ok(())
        } else {
            Err(("unable to clear the shown activity").to_owned())
        }
    }

    /// The activity shown by default after connecting.
    pub fn default_activity() -> (r: DiscordActivity)
        ensures
            r.state matches Some(s) && s@ == ("G\u{e8}re ses traductions")@,
            r.details matches Some(s) && s@ == ("StarTrad FR")@,
            r.large_image matches Some(s) && s@ == ("icon")@,
            r.large_text matches Some(s) && s@ == ("StarTrad FR")@,
            r.small_image is None,
            r.small_text is None,
    {
        DiscordActivity {
            state: Some(("G\u{e8}re ses traductions").to_owned()),
            details: Some(("StarTrad FR").to_owned()),
            large_image: Some(("icon").to_owned()),
            large_text: Some(("StarTrad FR").to_owned()),
            small_image: None,
            small_text: None,
        }
    }

    /// The activity shown while a channel's translation is being updated.
    pub fn translating_activity(version: &str) -> (r: DiscordActivity)
        ensures
            r.state matches Some(s) && s@ == ("Traduit ")@ + version@,
            r.details matches Some(s) && s@ == ("StarTrad FR")@,
            r.large_image matches Some(s) && s@ == ("icon")@,
            r.large_text matches Some(s) && s@ == ("StarTrad FR")@,
            r.small_image is None,
            r.small_text is None,
    {
        let mut state = ("Traduit ").to_owned();
        state.append(version);
        DiscordActivity {
            state: Some(state),
            details: Some(("StarTrad FR").to_owned()),
            large_image: Some(("icon").to_owned()),
            large_text: Some(("StarTrad FR").to_owned()),
            small_image: None,
            small_text: None,
        }
    }

    /// The status reported to the interface: the connection flag and a copy
    /// of the shown activity.
    pub fn status(&self) -> (r: DiscordStatus)
        ensures
            r.connected == self.connected,
            r.activity is Some <==> self.current_activity is Some,
    {
        let activity = match &self.current_activity {
            Some(a) => Some(a.clone()),
            None => None,
        };
        DiscordStatus { connected: self.connected, activity }
    }
}

} // verus!
