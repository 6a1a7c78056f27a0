//! The Snake leaderboard: read from and sent to the `/snake/` service of
//! the pack's server. The name is proved as on a Minecraft server: the
//! server gives a challenge, the launcher announces it to Mojang with the
//! player's token, then the server asks Mojang whether that name announced
//! it. The token only goes to Mojang, never to the pack's server. The
//! exchanges happen outside the library.

use vstd::prelude::*;

use crate::text::{before_last, before_last_char, replace_all, spec_decimal, spec_replace};

verus! {

/// One score of the leaderboard.
#[derive(Clone, Debug)]
pub struct Entry {
    pub name: String,
    pub uuid: String,
    pub score: u32,
    pub date: String,
}

#[derive(Clone, Debug)]
pub struct Top {
    pub top: Vec<Entry>,
}

#[derive(Clone, Debug)]
pub struct Submitted {
    pub top: Vec<Entry>,
    pub rank: u32,
    pub best: u32,
}

/// Mojang refuses the session (expired token): a fresh session may pass.
#[derive(Clone, Copy, Debug, PartialEq, Eq)]
pub struct SessionRefused(pub u16);

impl SessionRefused {
    /// The message shown.
    pub fn message(&self) -> (r: String)
        ensures
            r@ == "Mojang refuse la vérification du compte (HTTP "@ + spec_decimal(self.0 as nat) + ")"@,
    {
        let mut r = "Mojang refuse la vérification du compte (HTTP ".to_owned();
        crate::text::push_decimal(&mut r, self.0 as u64);
        r.append(")");
        r
    }
}

/// `https://.../pack.toml` -> `https://.../snake`: the pack's directory
/// (the whole URL if it has no `/`), then `/snake`.
pub open spec fn spec_base(pack_url: Seq<char>) -> Seq<char> {
    match before_last(pack_url, '/') {
        Some(b) => b + "/snake"@,
        None => pack_url + "/snake"@,
    }
}

pub fn base(pack_url: &str) -> (r: String)
    ensures
        r@ == spec_base(pack_url@),
{
    let mut r = match before_last_char(pack_url, '/') {
        Some(b) => b,
        None => pack_url.to_owned(),
    };
    r.append("/snake");
    r
}

/// The profile announced to Mojang: the UUID without its hyphens.
pub fn selected_profile(uuid: &str) -> (r: String)
    ensures
        r@ == spec_replace(uuid@, "-"@, Seq::empty()),
{
    proof {
        reveal_strlit("-");
        reveal_strlit("");
        assert(""@ =~= Seq::<char>::empty());
    }
    replace_all(uuid, "-", "")
}

/// The error the service reports (`{"error": ...}`), or else the HTTP
/// status as the HTTP library writes it (`404 Not Found`).
pub fn service_error(reported: Option<String>, status: &str) -> (r: String)
    ensures
        match reported {
            Some(m) => r == m,
            None => r@ == "HTTP "@ + status@,
        },
{
    match reported {
        Some(m) => m,
        None => {
            let mut r = "HTTP ".to_owned();
            r.append(status);
            r
        },
    }
}

} // verus!
