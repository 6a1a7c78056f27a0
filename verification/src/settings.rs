//! The launcher's settings and what is decided of them: what the screen may
//! change, what a reset keeps, the sign-in application, the offline trial
//! name. The custom memory (a float, in GB) is kept by the settings file
//! beside these.

use vstd::prelude::*;

use crate::text::{spec_trim, trim};

verus! {

/// The account: Minecraft name and UUID (public). The token is not here.
#[derive(Clone, Debug, PartialEq, Eq)]
pub struct Account {
    pub name: String,
    pub uuid: String,
}

/// The launcher's settings.
pub struct Settings {
    /// `auto`, `faible`, `moyen`, `haut`, `ultra` or `personnalise`
    /// (advanced mode).
    pub preset: String,
    /// Custom: the preset started from, and the groups ticked.
    pub custom_base: Option<String>,
    pub custom_groups: Vec<String>,
    /// Game options changed by the player; absent ones follow the preset.
    pub toggles: Vec<(String, bool)>,
    /// Optional mods switched on or off one by one.
    pub mods: Vec<(String, bool)>,
    /// Sliders (distances, frames per second) changed by the player.
    pub sliders: Vec<(String, i64)>,
    /// Choices (shader pack…) made by the player, or taken from the game.
    pub choices: Vec<(String, String)>,
    /// The value of each choice at the last launch.
    pub choices_applied: Vec<(String, String)>,
    /// Fingerprint of the settings applied at the last launch.
    pub applied: Option<String>,
    /// Version of the `[once]` settings already set, and of its files.
    pub once_applied: u32,
    pub once_files_applied: u32,
    /// Join the server straight away at launch.
    pub join_server: bool,
    /// What the launcher does once the game is at its menu: `reduire`,
    /// `garder` or `fermer`.
    pub launcher_behavior: String,
    /// The account signed in.
    pub account: Option<Account>,
    /// How long each milestone took at the previous launch, on this machine.
    pub last_milestones_ms: Vec<u64>,
}

/// The settings as installed, but for the account and the durations:
/// automatic preset, nothing chosen, nothing applied, the launcher minimised
/// while playing.
pub open spec fn is_default_choices(s: Settings) -> bool {
    &&& s.preset@ == "auto"@
    &&& s.custom_base is None
    &&& s.custom_groups@.len() == 0
    &&& s.toggles@.len() == 0
    &&& s.mods@.len() == 0
    &&& s.sliders@.len() == 0
    &&& s.choices@.len() == 0
    &&& s.choices_applied@.len() == 0
    &&& s.applied is None
    &&& s.once_applied == 0
    &&& s.once_files_applied == 0
    &&& !s.join_server
    &&& s.launcher_behavior@ == "reduire"@
}

/// The settings as installed: no account, no durations either.
pub open spec fn is_default(s: Settings) -> bool {
    &&& is_default_choices(s)
    &&& s.account is None
    &&& s.last_milestones_ms@.len() == 0
}

impl Default for Settings {
    fn default() -> (s: Self)
        ensures
            is_default(s),
    {
        Settings {
            preset: "auto".to_owned(),
            custom_base: None,
            custom_groups: Vec::new(),
            toggles: Vec::new(),
            mods: Vec::new(),
            sliders: Vec::new(),
            choices: Vec::new(),
            choices_applied: Vec::new(),
            applied: None,
            once_applied: 0,
            once_files_applied: 0,
            join_server: false,
            launcher_behavior: "reduire".to_owned(),
            account: None,
            last_milestones_ms: Vec::new(),
        }
    }
}

/// A copy of an account.
fn copy_account(a: &Option<Account>) -> (r: Option<Account>)
    ensures
        r == *a,
{
    match a {
        Some(x) => Some(Account { name: x.name.clone(), uuid: x.uuid.clone() }),
        None => None,
    }
}

/// A copy of a list of durations.
fn copy_durations(v: &Vec<u64>) -> (r: Vec<u64>)
    ensures
        r@ == v@,
{
    let mut r: Vec<u64> = Vec::new();
    let mut i: usize = 0;
    while i < v.len()
        invariant
            i <= v@.len(),
            r@ == v@.take(i as int),
        decreases v.len() - i,
    {
        r.push(v[i]);
        assert(r@ =~= v@.take(i + 1));
        i = i + 1;
    }
    assert(v@.take(v@.len() as int) =~= v@);
    r
}

impl Settings {
    /// What the screen may change: the player's choices. The rest (what was
    /// applied, the `[once]` versions, the account, the durations) is kept
    /// by the launcher: the screen holds a copy of it that may be stale.
    pub fn take_user_choices(&mut self, from: Settings)
        ensures
            final(self).preset == from.preset,
            final(self).custom_base == from.custom_base,
            final(self).custom_groups == from.custom_groups,
            final(self).toggles == from.toggles,
            final(self).mods == from.mods,
            final(self).sliders == from.sliders,
            final(self).choices == from.choices,
            final(self).join_server == from.join_server,
            final(self).launcher_behavior == from.launcher_behavior,
            final(self).choices_applied == old(self).choices_applied,
            final(self).applied == old(self).applied,
            final(self).once_applied == old(self).once_applied,
            final(self).once_files_applied == old(self).once_files_applied,
            final(self).account == old(self).account,
            final(self).last_milestones_ms == old(self).last_milestones_ms,
    {
        self.preset = from.preset;
        self.custom_base = from.custom_base;
        self.custom_groups = from.custom_groups;
        self.toggles = from.toggles;
        self.mods = from.mods;
        self.sliders = from.sliders;
        self.choices = from.choices;
        self.join_server = from.join_server;
        self.launcher_behavior = from.launcher_behavior;
    }

    /// "Reset everything": as at installation, but the account and the
    /// length of launches on this machine (it estimates the time left, it
    /// is no setting).
    pub fn reset_keeping_account(&self) -> (r: Self)
        ensures
            is_default_choices(r),
            r.account == self.account,
            r.last_milestones_ms@ == self.last_milestones_ms@,
    {
        let mut r = Settings::default();
        r.account = copy_account(&self.account);
        r.last_milestones_ms = copy_durations(&self.last_milestones_ms);
        r
    }
}

/// The client ID of the launcher's Azure application: the one given when
/// the launcher was built (`TURICRAFT_AZURE_CLIENT_ID`; another pack needs
/// its own App Registration), else Turi Industries' own.
pub fn azure_client_id(built_with: Option<String>) -> (r: Option<String>)
    ensures
        match built_with {
            Some(id) => r == Some(id),
            None => r matches Some(id) && id@ == crate::config::AZURE_CLIENT_ID@,
        },
{
    match built_with {
        Some(id) => Some(id),
        None => Some(crate::config::AZURE_CLIENT_ID.to_owned()),
    }
}

/// Offline mode, for trials only: the name given, unless blank.
pub fn offline_name(given: Option<String>) -> (r: Option<String>)
    ensures
        match given {
            Some(n) => if spec_trim(n@).len() > 0 { r == Some(n) } else { r is None },
            None => r is None,
        },
{
    match given {
        Some(n) => {
            let t = trim(n.as_str());
            if t.as_str().unicode_len() > 0 {
                Some(n)
            } else {
                None
            }
        },
        None => None,
    }
}

/// The pack's URL: the one given for trials, or the pack's own.
pub fn pack_url(given: Option<String>) -> (r: String)
    ensures
        match given {
            Some(u) => r == u,
            None => r@ == crate::config::DEFAULT_PACK_URL@,
        },
{
    match given {
        Some(u) => u,
        None => crate::config::DEFAULT_PACK_URL.to_owned(),
    }
}

} // verus!
