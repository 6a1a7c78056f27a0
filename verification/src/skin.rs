//! The player's real skin, to show their head in the launcher: taken from
//! Mojang (profile, then texture) and kept for offline launches. Fetching
//! and keeping it happen outside the library; here is what is read of the
//! profile and what is handed to the interface.

use vstd::prelude::*;

use crate::auth::b64_char;
use crate::display::{b64_decode, b64_standard_decoded};
use crate::text::{replace_first, spec_replace_first, str_eq};

use base64::Engine;

verus! {

/// Character `n` (`n < 64`) of the standard base64 alphabet.
pub open spec fn b64_std_char(n: u8) -> char {
    if n < 62 {
        b64_char(n)
    } else if n == 62 {
        '+'
    } else {
        '/'
    }
}

/// Standard base64 with padding (RFC 4648, section 4): three bytes give four
/// characters, a last group of one or two bytes gives two or three, padded
/// with `=` to four.
pub open spec fn spec_b64(d: Seq<u8>) -> Seq<char>
    decreases d.len(),
{
    if d.len() == 0 {
        Seq::empty()
    } else if d.len() == 1 {
        seq![b64_std_char(d[0] >> 2u8), b64_std_char((d[0] & 3u8) << 4u8), '=', '=']
    } else if d.len() == 2 {
        seq![
            b64_std_char(d[0] >> 2u8),
            b64_std_char(((d[0] & 3u8) << 4u8) | (d[1] >> 4u8)),
            b64_std_char((d[1] & 15u8) << 2u8),
            '=',
        ]
    } else {
        seq![
            b64_std_char(d[0] >> 2u8),
            b64_std_char(((d[0] & 3u8) << 4u8) | (d[1] >> 4u8)),
            b64_std_char(((d[1] & 15u8) << 2u8) | (d[2] >> 6u8)),
            b64_std_char(d[2] & 63u8),
        ] + spec_b64(d.subrange(3, d.len() as int))
    }
}

/// `base64::engine::general_purpose::STANDARD.encode`: standard base64 with
/// padding, as RFC 4648 defines it. Trusted to follow it (`spec_b64`).
#[verifier::external_body]
fn b64_encode(data: &[u8]) -> (s: String)
    ensures
        s@ == spec_b64(data@),
{
    base64::engine::general_purpose::STANDARD.encode(data)
}

/// The skin as `data:image/png;base64,...`: the interface cuts the head out
/// of it itself, without allowing another site.
pub fn skin_data_url(png: &[u8]) -> (r: String)
    ensures
        r@ == "data:image/png;base64,"@ + spec_b64(png@),
{
    let mut r = "data:image/png;base64,".to_owned();
    let e = b64_encode(png);
    r.append(e.as_str());
    r
}

/// The `textures` property of a Mojang profile: the value of the first
/// property named `textures` (each property by its name and value, when
/// they are strings).
pub open spec fn spec_textures(properties: Seq<(Option<String>, Option<String>)>) -> Option<Seq<char>>
    decreases properties.len(),
{
    if properties.len() == 0 {
        None
    } else if properties[0].0 matches Some(n) && n@ == "textures"@ {
        match properties[0].1 {
            Some(v) => Some(v@),
            None => None,
        }
    } else {
        spec_textures(properties.drop_first())
    }
}

/// See `spec_textures`.
pub fn textures_value(properties: &Vec<(Option<String>, Option<String>)>) -> (r: Option<String>)
    ensures
        match spec_textures(properties@) {
            Some(v) => (r matches Some(s) && s@ == v),
            None => r is None,
        },
{
    let mut i: usize = 0;
    assert(properties@.subrange(0, properties@.len() as int) =~= properties@);
    while i < properties.len()
        invariant
            i <= properties@.len(),
            spec_textures(properties@) == spec_textures(properties@.subrange(i as int, properties@.len() as int)),
        decreases properties.len() - i,
    {
        let ghost rest = properties@.subrange(i as int, properties@.len() as int);
        assert(rest[0] == properties@[i as int]);
        let named = match &properties[i].0 {
            Some(n) => str_eq(n.as_str(), "textures"),
            None => false,
        };
        if named {
            return match &properties[i].1 {
                Some(v) => Some(v.clone()),
                None => None,
            };
        }
        assert(rest.drop_first() =~= properties@.subrange(i + 1, properties@.len() as int));
        i = i + 1;
    }
    None
}

/// The JSON text of the textures: the property's value decoded from
/// standard base64; `None` when it is no such encoding.
pub fn decoded_textures(value: &str) -> (r: Option<Vec<u8>>)
    ensures
        match b64_standard_decoded(value@) {
            Some(b) => (r matches Some(v) && v@ == b),
            None => r is None,
        },
{
    b64_decode(value)
}

/// Mojang gives an `http://` address; the same file is served over
/// `https://` (the first `http://` is replaced).
pub fn https_url(url: &str) -> (r: String)
    ensures
        r@ == spec_replace_first(url@, "http://"@, "https://"@),
{
    proof {
        reveal_strlit("http://");
    }
    replace_first(url, "http://", "https://")
}

} // verus!
