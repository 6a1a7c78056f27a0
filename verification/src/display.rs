//! The MAIN screen: its refresh rate, and whether it does VRR (FreeSync,
//! G-Sync, Adaptive-Sync). Used to cap frames per second at what the screen
//! shows, and to turn vertical sync off when VRR makes it useless.
//!
//! Beware of a second screen: on a test PC the main screen runs at 144 Hz and
//! the second at 165 Hz; taking the fastest would be wrong.
//!
//! "Capable" comes from the screen's EDID (what it announces). "Active" is
//! only known where the system says so. Asking the system is done outside
//! the library; reading the EDID is done here.

use vstd::prelude::*;

use crate::net::{ascii_lower, to_ascii_lower};
use crate::packwiz::{all_digits, parse_u64, parse_u64_in};
use crate::text::{
    contains, contains_str, find_char, find_in, lemma_find_char, lines_of, spec_lines, split_once, starts_with, starts_with_str,
    spec_trim, split_on, split_ranges, str_eq, string_of, strings_of, sub_vec, to_chars, trim, trim_chars, words, words_of,
};

use base64::Engine;

verus! {

/// What is known of the main screen.
#[derive(Clone, Debug, PartialEq, Eq)]
pub struct Display {
    /// Refresh rate of the main screen, in Hz.
    pub refresh_hz: Option<u32>,
    /// Height of the main screen, in real pixels (size of the interface).
    pub height_px: Option<u32>,
    /// The screen announces FreeSync / G-Sync / Adaptive-Sync in its EDID.
    pub vrr_capable: bool,
    /// The system has VRR enabled for this screen (when that can be known).
    pub vrr_active: bool,
    /// Where this information comes from (shown when hovering "auto").
    pub source: String,
}

impl Default for Display {
    fn default() -> (d: Self)
        ensures
            d.refresh_hz is None,
            d.height_px is None,
            !d.vrr_capable,
            !d.vrr_active,
            d.source@ == Seq::<char>::empty(),
    {
        Display { refresh_hz: None, height_px: None, vrr_capable: false, vrr_active: false, source: String::new() }
    }
}

/// VRR can only be active on a screen that announces it.
pub open spec fn vrr_consistent(d: Display) -> bool {
    d.vrr_active ==> d.vrr_capable
}

/// What the system reported, or nothing known when it reported nothing.
/// What the system reports is made by the readers below (`kde_display`,
/// `xrandr_display`, `windows_screen`, `mac_display`), which keep VRR
/// active only on a capable screen.
pub fn detect(found: Option<Display>) -> (d: Display)
    requires
        found matches Some(f) ==> vrr_consistent(f),
    ensures
        found matches Some(f) ==> d == f,
        found is None ==> d.refresh_hz is None && d.height_px is None && !d.vrr_capable && !d.vrr_active
            && d.source@ == Seq::<char>::empty(),
        vrr_consistent(d),
{
    match found {
        Some(f) => f,
        None => Display::default(),
    }
}

/// The main screen as KDE reports it: VRR active when the screen is capable
/// and its policy is not "never" (see `kde_vrr_active`).
pub fn kde_display(refresh_hz: Option<u32>, height_px: Option<u32>, capable: bool, policy: Option<u64>, name: &str) -> (d: Display)
    ensures
        d.refresh_hz == refresh_hz,
        d.height_px == height_px,
        d.vrr_capable == capable,
        d.vrr_active == (capable && match policy {
            Some(p) => p != 0,
            None => false,
        }),
        d.source@ == "KDE, écran "@ + name@,
        vrr_consistent(d),
{
    let mut source = "KDE, écran ".to_owned();
    source.append(name);
    Display { refresh_hz, height_px, vrr_capable: capable, vrr_active: kde_vrr_active(capable, policy), source }
}

/// The main screen as xrandr reports it: VRR may be capable there, it is
/// not known to be active.
pub fn xrandr_display(refresh_hz: Option<u32>, height_px: Option<u32>, capable: bool, name: &str) -> (d: Display)
    ensures
        d.refresh_hz == refresh_hz,
        d.height_px == height_px,
        d.vrr_capable == capable,
        !d.vrr_active,
        d.source@ == "xrandr, écran "@ + name@,
        vrr_consistent(d),
{
    let mut source = "xrandr, écran ".to_owned();
    source.append(name);
    Display { refresh_hz, height_px, vrr_capable: capable, vrr_active: false, source }
}

/// The main screen as macOS reports it: no VRR is read there.
pub fn mac_display(refresh_hz: Option<u32>, height_px: Option<u32>) -> (d: Display)
    ensures
        d.refresh_hz == refresh_hz,
        d.height_px == height_px,
        !d.vrr_capable,
        !d.vrr_active,
        d.source@ == "macOS"@,
        vrr_consistent(d),
{
    Display { refresh_hz, height_px, vrr_capable: false, vrr_active: false, source: "macOS".to_owned() }
}

// ─── EDID ───────────────────────────────────────────────────────────────────

/// The OUI of a CTA-861 vendor-specific block is one of FreeSync (AMD,
/// `1A 00 00`) or G-Sync (NVIDIA, `4B 04 00`).
pub open spec fn vrr_oui(a: u8, b: u8, c: u8) -> bool {
    (a == 0x1a && b == 0x00 && c == 0x00) || (a == 0x4b && b == 0x04 && c == 0x00)
}

/// The data blocks of a CTA-861 extension from byte `i` to `end`: each
/// starts with a byte holding its tag (3 high bits) and length (5 low
/// bits); a vendor-specific block (tag 3) of at least 3 bytes starts with an
/// OUI. A zero byte ends the list.
pub open spec fn cta_scan(ext: Seq<u8>, i: int, end: int) -> bool
    decreases end - i,
{
    if i < 0 || i >= end || end > ext.len() {
        false
    } else {
        let tag = ext[i] >> 5u8;
        let len = (ext[i] & 0x1fu8) as int;
        if tag == 3 && len >= 3 && i + 4 <= ext.len() && vrr_oui(ext[i + 1], ext[i + 2], ext[i + 3]) {
            true
        } else if (len == 0 && tag == 0) || i + 1 + len >= end {
            false
        } else {
            cta_scan(ext, i + 1 + len, end)
        }
    }
}

/// The blocks of a DisplayID extension from byte `i` to `end`: three bytes
/// (tag, revision, length), then the data; "Adaptive-Sync" has tag `0x2B`. A
/// block with tag and length zero ends the list.
pub open spec fn displayid_scan(ext: Seq<u8>, i: int, end: int) -> bool
    decreases end - i,
{
    if i < 0 || i + 3 > end || end > ext.len() {
        false
    } else if ext[i] == 0x2b {
        true
    } else if (ext[i] == 0 && ext[i + 2] == 0) || i + 3 + ext[i + 2] > end {
        false
    } else {
        displayid_scan(ext, i + 3 + ext[i + 2], end)
    }
}

/// One 128-byte extension announces VRR: a CTA-861 extension (`0x02`) whose
/// data blocks (bytes 4 up to byte `ext[2]`) hold a FreeSync or G-Sync
/// block, or a DisplayID extension (`0x70`) whose blocks (bytes 5 up to
/// `5 + ext[2]`) hold an Adaptive-Sync block.
pub open spec fn ext_vrr(ext: Seq<u8>) -> bool {
    if ext.len() >= 4 && ext[0] == 0x02 {
        cta_scan(ext, 4, if (ext[2] as int) < ext.len() { ext[2] as int } else { ext.len() as int })
    } else if ext.len() >= 5 && ext[0] == 0x70 {
        displayid_scan(
            ext,
            5,
            if 5 + ext[2] < ext.len() { 5 + ext[2] } else { ext.len() as int },
        )
    } else {
        false
    }
}

/// Block `k` of an EDID: bytes `128 k` to `128 (k + 1)` (the last may be
/// shorter).
pub open spec fn edid_block(edid: Seq<u8>, k: int) -> Seq<u8> {
    edid.subrange(128 * k, if 128 * (k + 1) < edid.len() { 128 * (k + 1) } else { edid.len() as int })
}

/// The screen announces VRR: one of the extensions after the base block
/// does.
pub open spec fn spec_edid_vrr(edid: Seq<u8>) -> bool {
    exists|k: int| 1 <= k && 128 * k < edid.len() && #[trigger] ext_vrr(edid_block(edid, k))
}

/// CTA-861 scan of `edid[s..e]` (see `cta_scan`).
fn cta_vrr(edid: &[u8], s: usize, e: usize) -> (r: bool)
    requires
        s + 4 <= e <= edid@.len(),
        edid@[s as int] == 0x02,
    ensures
        r == ext_vrr(edid@.subrange(s as int, e as int)),
{
    let ghost ext = edid@.subrange(s as int, e as int);
    let n = e - s;
    let b2 = edid[s + 2] as usize;
    let end = if b2 < n { b2 } else { n };
    assert(ext[2] == edid@[s + 2]);
    assert(ext.len() == n && ext[0] == 0x02);
    assert(ext_vrr(ext) == cta_scan(ext, 4, end as int));
    let mut i: usize = 4;
    while i < end
        invariant
            s + 4 <= e <= edid@.len(),
            n == e - s,
            ext == edid@.subrange(s as int, e as int),
            end <= n,
            end <= 255,
            4 <= i <= 300,
            ext_vrr(ext) == cta_scan(ext, i as int, end as int),
        decreases 300 - i,
    {
        let b = edid[s + i];
        assert(ext[i as int] == b);
        let tag: u8 = b >> 5u8;
        let low: u8 = b & 0x1fu8;
        assert(low <= 31) by (bit_vector)
            requires
                low == b & 0x1fu8,
        ;
        let len = low as usize;
        if tag == 3 && len >= 3 && n - i >= 4 {
            assert(ext[i + 1] == edid@[s + i + 1]);
            assert(ext[i + 2] == edid@[s + i + 2]);
            assert(ext[i + 3] == edid@[s + i + 3]);
            let (o1, o2, o3) = (edid[s + i + 1], edid[s + i + 2], edid[s + i + 3]);
            if (o1 == 0x1a && o2 == 0x00 && o3 == 0x00) || (o1 == 0x4b && o2 == 0x04 && o3 == 0x00) {
                assert(vrr_oui(ext[i + 1], ext[i + 2], ext[i + 3]));
                return true;
            }
        }
        if len == 0 && tag == 0 {
            return false;
        }
        i = i + 1 + len;
    }
    false
}

/// DisplayID scan of `edid[s..e]` (see `displayid_scan`).
fn displayid_vrr(edid: &[u8], s: usize, e: usize) -> (r: bool)
    requires
        s + 5 <= e <= edid@.len(),
        edid@[s as int] == 0x70,
    ensures
        r == ext_vrr(edid@.subrange(s as int, e as int)),
{
    let ghost ext = edid@.subrange(s as int, e as int);
    let n = e - s;
    let b2 = edid[s + 2] as usize;
    let end = if 5 + b2 < n { 5 + b2 } else { n };
    assert(ext[2] == edid@[s + 2]);
    assert(ext.len() == n && ext[0] == 0x70);
    assert(ext_vrr(ext) == displayid_scan(ext, 5, end as int));
    let mut i: usize = 5;
    while i < end && end - i >= 3
        invariant
            s + 5 <= e <= edid@.len(),
            n == e - s,
            ext == edid@.subrange(s as int, e as int),
            end <= n,
            end <= 260,
            5 <= i <= 600,
            ext_vrr(ext) == displayid_scan(ext, i as int, end as int),
        decreases 600 - i,
    {
        assert(ext[i as int] == edid@[s + i]);
        assert(ext[i + 2] == edid@[s + i + 2]);
        if edid[s + i] == 0x2b {
            return true;
        }
        if edid[s + i] == 0 && edid[s + i + 2] == 0 {
            return false;
        }
        i = i + 3 + edid[s + i + 2] as usize;
    }
    false
}

/// Whether one extension `edid[s..e]` announces VRR.
fn extension_vrr(edid: &[u8], s: usize, e: usize) -> (r: bool)
    requires
        s <= e <= edid@.len(),
    ensures
        r == ext_vrr(edid@.subrange(s as int, e as int)),
{
    let ghost ext = edid@.subrange(s as int, e as int);
    if e - s >= 4 && edid[s] == 0x02 {
        assert(ext[0] == edid@[s as int]);
        cta_vrr(edid, s, e)
    } else if e - s >= 5 && edid[s] == 0x70 {
        assert(ext[0] == edid@[s as int]);
        displayid_vrr(edid, s, e)
    } else {
        proof {
            if e - s >= 4 {
                assert(ext[0] == edid@[s as int]);
            }
        }
        false
    }
}

/// Does the screen announce VRR? FreeSync (AMD) or G-Sync (NVIDIA) blocks
/// of a CTA-861 extension, or an Adaptive-Sync block of a DisplayID
/// extension, in any of the 128-byte blocks after the first.
pub fn edid_vrr_capable(edid: &[u8]) -> (r: bool)
    ensures
        r == spec_edid_vrr(edid@),
{
    let len = edid.len();
    if len <= 128 {
        assert forall|k: int| 1 <= k && 128 * k < edid@.len() implies !#[trigger] ext_vrr(edid_block(edid@, k)) by {}
        return false;
    }
    let mut o: usize = 128;
    let ghost mut m: int = 1;
    loop
        invariant
            len == edid@.len(),
            o == 128 * m,
            1 <= m,
            o < len,
            forall|k: int| 1 <= k < m ==> !#[trigger] ext_vrr(edid_block(edid@, k)),
        decreases len - o,
    {
        let e = if len - o < 128 { len } else { o + 128 };
        assert(edid_block(edid@, m) == edid@.subrange(o as int, e as int));
        if extension_vrr(edid, o, e) {
            return true;
        }
        if e == len {
            assert forall|k: int| 1 <= k && 128 * k < edid@.len() implies !#[trigger] ext_vrr(edid_block(edid@, k)) by {
                assert(k <= m);
            }
            return false;
        }
        o = e;
        proof { m = m + 1; }
    }
}


// ─── Numbers in the tools' output ───────────────────────────────────────────

/// Every character in ASCII lower case.
pub open spec fn lower_seq(s: Seq<char>) -> Seq<char> {
    Seq::new(s.len(), |i: int| ascii_lower(s[i]))
}

/// `s` without its leading sign, if it has one.
pub open spec fn unsigned_part(s: Seq<char>) -> Seq<char> {
    if s.len() > 0 && (s[0] == '+' || s[0] == '-') {
        s.drop_first()
    } else {
        s
    }
}

/// Digits with at most one point among them, and at least one digit.
pub open spec fn is_mantissa(m: Seq<char>) -> bool {
    match find_char(m, '.') {
        None => m.len() > 0 && all_digits(m),
        Some(i) => m.len() > 1 && all_digits(m.subrange(0, i)) && all_digits(m.subrange(i + 1, m.len() as int)),
    }
}

/// An optional sign, then at least one digit.
pub open spec fn is_exponent(x: Seq<char>) -> bool {
    unsigned_part(x).len() > 0 && all_digits(unsigned_part(x))
}

/// `str::parse::<f64>` accepts `s`. The grammar std documents: an optional
/// sign, then `inf`, `infinity` or `nan` (in any case), or a number: digits
/// with at most one point and at least one digit, then optionally `e` (in
/// any case), an optional sign and digits.
pub open spec fn is_float_text(s: Seq<char>) -> bool {
    let l = lower_seq(unsigned_part(s));
    ||| l == "inf"@
    ||| l == "infinity"@
    ||| l == "nan"@
    ||| match find_char(l, 'e') {
        None => is_mantissa(l),
        Some(i) => is_mantissa(l.subrange(0, i)) && is_exponent(l.subrange(i + 1, l.len() as int)),
    }
}

fn digits_in(v: &Vec<char>, from: usize, to: usize) -> (r: bool)
    requires
        from <= to <= v@.len(),
    ensures
        r == all_digits(v@.subrange(from as int, to as int)),
{
    let mut i = from;
    while i < to
        invariant
            from <= i <= to <= v@.len(),
            forall|j: int| from <= j < i ==> '0' <= #[trigger] v@[j] <= '9',
        decreases to - i,
    {
        if v[i] < '0' || v[i] > '9' {
            assert(v@.subrange(from as int, to as int)[i - from] == v@[i as int]);
            return false;
        }
        i = i + 1;
    }
    assert forall|j: int| 0 <= j < to - from implies '0' <= #[trigger] v@.subrange(from as int, to as int)[j] <= '9' by {
        assert(v@.subrange(from as int, to as int)[j] == v@[from + j]);
    }
    true
}

fn mantissa_in(v: &Vec<char>, from: usize, to: usize) -> (r: bool)
    requires
        from <= to <= v@.len(),
    ensures
        r == is_mantissa(v@.subrange(from as int, to as int)),
{
    let ghost m = v@.subrange(from as int, to as int);
    proof {
        lemma_find_char(m, '.');
    }
    match find_in(v, from, to, '.') {
        None => to > from && digits_in(v, from, to),
        Some(p) => {
            assert(m.subrange(0, p - from) =~= v@.subrange(from as int, p as int));
            assert(m.subrange(p - from + 1, m.len() as int) =~= v@.subrange(p + 1, to as int));
            to - from > 1 && digits_in(v, from, p) && digits_in(v, p + 1, to)
        },
    }
}

fn exponent_in(v: &Vec<char>, from: usize, to: usize) -> (r: bool)
    requires
        from <= to <= v@.len(),
    ensures
        r == is_exponent(v@.subrange(from as int, to as int)),
{
    let ghost x = v@.subrange(from as int, to as int);
    let mut a = from;
    if a < to && (v[a] == '+' || v[a] == '-') {
        a = a + 1;
        assert(x.drop_first() =~= v@.subrange(a as int, to as int));
    } else {
        assert(x =~= v@.subrange(a as int, to as int));
    }
    a < to && digits_in(v, a, to)
}

/// Whether `str::parse::<f64>` accepts `s` (see `is_float_text`).
pub fn float_text(s: &str) -> (r: bool)
    ensures
        r == is_float_text(s@),
{
    let v = to_chars(s);
    let mut a: usize = 0;
    if v.len() > 0 && (v[0] == '+' || v[0] == '-') {
        a = 1;
    }
    let ghost u = unsigned_part(s@);
    assert(u =~= v@.subrange(a as int, v@.len() as int));
    let mut l: Vec<char> = Vec::new();
    let mut i = a;
    while i < v.len()
        invariant
            a <= i <= v@.len(),
            l@ =~= lower_seq(v@.subrange(a as int, i as int)),
        decreases v.len() - i,
    {
        l.push(to_ascii_lower(v[i]));
        assert(l@ =~= lower_seq(v@.subrange(a as int, i + 1)));
        i = i + 1;
    }
    let ghost ls = lower_seq(u);
    assert(l@ == ls);
    let n = l.len();
    let t = string_of(l.as_slice(), 0, n);
    assert(l@.subrange(0, n as int) =~= l@);
    if str_eq(t.as_str(), "inf") || str_eq(t.as_str(), "infinity") || str_eq(t.as_str(), "nan") {
        return true;
    }
    assert(l@.subrange(0, n as int) =~= ls);
    proof {
        lemma_find_char(ls, 'e');
    }
    match find_in(&l, 0, n, 'e') {
        None => mantissa_in(&l, 0, n),
        Some(p) => {
            assert(ls.subrange(0, p as int) =~= l@.subrange(0, p as int));
            assert(ls.subrange(p + 1, ls.len() as int) =~= l@.subrange(p + 1, n as int));
            mantissa_in(&l, 0, p) && exponent_in(&l, p + 1, n)
        },
    }
}

/// `str::parse::<u32>`: an optional `+`, then digits, and a value that fits.
pub open spec fn parse_u32(s: Seq<char>) -> Option<u32> {
    match parse_u64(s) {
        Some(v) => if v <= u32::MAX {
            Some(v as u32)
        } else {
            None
        },
        None => None,
    }
}

fn parse_u32_of(v: &Vec<char>, from: usize, to: usize) -> (r: Option<u32>)
    requires
        from <= to <= v@.len(),
    ensures
        r == parse_u32(v@.subrange(from as int, to as int)),
{
    match parse_u64_in(v, from, to) {
        Some(x) => if x <= 0xffff_ffff {
            Some(x as u32)
        } else {
            None
        },
        None => None,
    }
}


// ─── xrandr ─────────────────────────────────────────────────────────────────

/// `s` without its trailing `*` and `+` marks.
pub open spec fn trim_end_marks(s: Seq<char>) -> Seq<char>
    decreases s.len(),
{
    if s.len() > 0 && (s.last() == '*' || s.last() == '+') {
        trim_end_marks(s.drop_last())
    } else {
        s
    }
}

/// `s` without its trailing characters that are not ASCII digits.
pub open spec fn trim_end_non_digits(s: Seq<char>) -> Seq<char>
    decreases s.len(),
{
    if s.len() > 0 && !('0' <= s.last() <= '9') {
        trim_end_non_digits(s.drop_last())
    } else {
        s
    }
}

/// The first word holding a `*`.
pub open spec fn first_starred(ws: Seq<Seq<char>>) -> Option<Seq<char>>
    decreases ws.len(),
{
    if ws.len() == 0 {
        None
    } else if contains(ws[0], "*"@) {
        Some(ws[0])
    } else {
        first_starred(ws.drop_first())
    }
}

/// The height of a mode line (`2560x1440 ...`): the number after the `x`
/// of its first word.
pub open spec fn mode_height(ws: Seq<Seq<char>>) -> Option<u32> {
    if ws.len() == 0 {
        None
    } else {
        match split_once(ws[0], 'x') {
            Some((_, h)) => parse_u32(trim_end_non_digits(h)),
            None => None,
        }
    }
}

/// The refresh rate of a mode line: its word marked `*` (the current mode)
/// without its marks, when it reads as a number.
pub open spec fn mode_refresh(ws: Seq<Seq<char>>) -> Option<Seq<char>> {
    match first_starred(ws) {
        Some(t) => if is_float_text(trim_end_marks(t)) {
            Some(trim_end_marks(t))
        } else {
            None
        },
        None => None,
    }
}

/// One line of `xrandr --current` read: the state is the primary output,
/// the height and refresh rate of its current mode, and whether the lines
/// read belong to the primary output. An output line (not indented) starts
/// an output; in the primary one, the first mode line marked `*` whose
/// rate reads as a number gives the current mode.
pub open spec fn xrandr_step(st: (Option<Seq<char>>, Option<u32>, Option<Seq<char>>, bool), line: Seq<char>) -> (
    Option<Seq<char>>,
    Option<u32>,
    Option<Seq<char>>,
    bool,
) {
    if !starts_with(line, " "@) {
        let on = contains(line, " connected primary"@);
        (
            if on {
                if words(line).len() > 0 {
                    Some(words(line)[0])
                } else {
                    None
                }
            } else {
                st.0
            },
            st.1,
            st.2,
            on,
        )
    } else if st.3 && st.2 is None && contains(line, "*"@) {
        (st.0, mode_height(words(line)), mode_refresh(words(line)), st.3)
    } else {
        st
    }
}

/// The lines of `xrandr --current` read one after the other.
pub open spec fn xrandr_scan(lines: Seq<Seq<char>>) -> (Option<Seq<char>>, Option<u32>, Option<Seq<char>>, bool)
    decreases lines.len(),
{
    if lines.len() == 0 {
        (None, None, None, false)
    } else {
        xrandr_step(xrandr_scan(lines.drop_last()), lines.last())
    }
}

/// The primary screen as `xrandr` shows it: its output's name, its height,
/// and the text of its refresh rate (a number; rounding it is left to the
/// caller).
#[derive(Clone, Debug)]
pub struct XrandrScreen {
    pub name: String,
    pub height_px: Option<u32>,
    pub refresh: Option<String>,
}

/// The view of an optional string.
pub open spec fn opt_view(o: Option<String>) -> Option<Seq<char>> {
    match o {
        Some(s) => Some(s@),
        None => None,
    }
}

fn trim_end_marks_in(v: &Vec<char>, from: usize, to: usize) -> (e: usize)
    requires
        from <= to <= v@.len(),
    ensures
        from <= e <= to,
        v@.subrange(from as int, e as int) == trim_end_marks(v@.subrange(from as int, to as int)),
{
    let mut e = to;
    while e > from && (v[e - 1] == '*' || v[e - 1] == '+')
        invariant
            from <= e <= to <= v@.len(),
            trim_end_marks(v@.subrange(from as int, to as int)) == trim_end_marks(v@.subrange(from as int, e as int)),
        decreases e,
    {
        assert(v@.subrange(from as int, e as int).drop_last() =~= v@.subrange(from as int, e - 1));
        e = e - 1;
    }
    e
}

fn trim_end_non_digits_in(v: &Vec<char>, from: usize, to: usize) -> (e: usize)
    requires
        from <= to <= v@.len(),
    ensures
        from <= e <= to,
        v@.subrange(from as int, e as int) == trim_end_non_digits(v@.subrange(from as int, to as int)),
{
    let mut e = to;
    while e > from && (v[e - 1] < '0' || v[e - 1] > '9')
        invariant
            from <= e <= to <= v@.len(),
            trim_end_non_digits(v@.subrange(from as int, to as int)) == trim_end_non_digits(v@.subrange(from as int, e as int)),
        decreases e,
    {
        assert(v@.subrange(from as int, e as int).drop_last() =~= v@.subrange(from as int, e - 1));
        e = e - 1;
    }
    e
}

fn mode_height_of(ws: &Vec<String>) -> (r: Option<u32>)
    ensures
        r == mode_height(strings_of(ws@)),
{
    if ws.len() == 0 {
        return None;
    }
    let v = to_chars(ws[0].as_str());
    let n = v.len();
    assert(v@.subrange(0, n as int) =~= v@);
    proof {
        lemma_find_char(v@, 'x');
    }
    match find_in(&v, 0, n, 'x') {
        None => None,
        Some(p) => {
            let e = trim_end_non_digits_in(&v, p + 1, n);
            parse_u32_of(&v, p + 1, e)
        },
    }
}

fn first_starred_of(ws: &Vec<String>) -> (r: Option<usize>)
    ensures
        match first_starred(strings_of(ws@)) {
            None => r is None,
            Some(t) => (r matches Some(i) && i < ws@.len() && ws@[i as int]@ == t),
        },
{
    let ghost s = strings_of(ws@);
    assert(s.subrange(0, s.len() as int) =~= s);
    let mut i: usize = 0;
    while i < ws.len()
        invariant
            i <= ws@.len(),
            s == strings_of(ws@),
            first_starred(s) == first_starred(s.subrange(i as int, s.len() as int)),
        decreases ws.len() - i,
    {
        let ghost rest = s.subrange(i as int, s.len() as int);
        assert(rest[0] == ws@[i as int]@);
        if contains_str(ws[i].as_str(), "*") {
            return Some(i);
        }
        assert(rest.drop_first() =~= s.subrange(i + 1, s.len() as int));
        i = i + 1;
    }
    None
}

fn mode_refresh_of(ws: &Vec<String>) -> (r: Option<String>)
    ensures
        opt_view(r) == mode_refresh(strings_of(ws@)),
{
    match first_starred_of(ws) {
        None => None,
        Some(i) => {
            let v = to_chars(ws[i].as_str());
            let n = v.len();
            assert(v@.subrange(0, n as int) =~= v@);
            let e = trim_end_marks_in(&v, 0, n);
            let t = string_of(v.as_slice(), 0, e);
            if float_text(t.as_str()) {
                Some(t)
            } else {
                None
            }
        },
    }
}

/// Reads the output of `xrandr --current`: the output marked `primary` and
/// its current mode (the line marked `*`). `None` when no output is
/// primary.
pub fn xrandr_primary(out: &str) -> (r: Option<XrandrScreen>)
    ensures
        ({
            let st = xrandr_scan(spec_lines(out@));
            match st.0 {
                None => r is None,
                Some(n) => (r matches Some(x) && x.name@ == n && x.height_px == st.1 && opt_view(x.refresh) == st.2),
            }
        }),
{
    let lines = lines_of(out);
    let ghost ls = strings_of(lines@);
    let mut primary: Option<String> = None;
    let mut height: Option<u32> = None;
    let mut refresh: Option<String> = None;
    let mut in_primary = false;
    let mut i: usize = 0;
    while i < lines.len()
        invariant
            i <= lines@.len(),
            ls == strings_of(lines@),
            xrandr_scan(ls.take(i as int)) == (opt_view(primary), height, opt_view(refresh), in_primary),
        decreases lines.len() - i,
    {
        let ghost t = ls.take(i + 1);
        assert(t.drop_last() =~= ls.take(i as int));
        assert(t.last() == lines@[i as int]@);
        let line = lines[i].as_str();
        if !starts_with_str(line, " ") {
            in_primary = contains_str(line, " connected primary");
            if in_primary {
                let ws = words_of(line);
                primary = if ws.len() > 0 {
                    Some(ws[0].clone())
                } else {
                    None
                };
            }
        } else if in_primary && refresh.is_none() && contains_str(line, "*") {
            let ws = words_of(line);
            height = mode_height_of(&ws);
            refresh = mode_refresh_of(&ws);
        }
        i = i + 1;
    }
    assert(ls.take(ls.len() as int) =~= ls);
    match primary {
        None => None,
        Some(name) => Some(XrandrScreen { name, height_px: height, refresh }),
    }
}


// ─── Windows ────────────────────────────────────────────────────────────────

/// What `base64::engine::general_purpose::STANDARD.decode` gives for `s`:
/// the bytes it encodes in the standard alphabet with padding, or `None`
/// when it is no such encoding.
pub uninterp spec fn b64_standard_decoded(s: Seq<char>) -> Option<Seq<u8>>;

/// Calls `base64::engine::general_purpose::STANDARD.decode`; its result,
/// a function of `s` alone, is named by `b64_standard_decoded`.
#[verifier::external_body]
pub(crate) fn b64_decode(s: &str) -> (r: Option<Vec<u8>>)
    ensures
        match b64_standard_decoded(s@) {
            Some(b) => (r matches Some(v) && v@ == b),
            None => r is None,
        },
{
    base64::engine::general_purpose::STANDARD.decode(s).ok()
}

/// The EDIDs listed in base64 (empty pieces skipped, pieces that do not
/// decode ignored): whether one decodes, and whether all that decode
/// announce VRR.
pub open spec fn edids_vrr(parts: Seq<Seq<char>>) -> (bool, bool)
    decreases parts.len(),
{
    if parts.len() == 0 {
        (false, true)
    } else {
        let prev = edids_vrr(parts.drop_last());
        let p = parts.last();
        if p.len() == 0 {
            prev
        } else {
            match b64_standard_decoded(p) {
                Some(e) => (true, prev.1 && spec_edid_vrr(e)),
                None => prev,
            }
        }
    }
}

/// What the Windows query prints, read: `<hz>;<height>|<edid>,<edid>...`
/// (the refresh rate and height of the main screen as the graphics card
/// sees them, then the EDIDs of the active screens in base64). Not knowing
/// which screen is the main one, VRR is capable when ALL are; the drivers
/// turn FreeSync and G-Sync Compatible on by themselves.
pub open spec fn spec_windows_screen(out: Seq<char>) -> Option<(Option<u32>, Option<u32>, bool)> {
    match split_once(spec_trim(out), '|') {
        None => None,
        Some((hz_h, edids)) => {
            let (hz, h) = match split_once(hz_h, ';') {
                Some(p) => p,
                None => (hz_h, Seq::empty()),
            };
            let e = edids_vrr(split_on(edids, ','));
            Some((parse_u32(spec_trim(hz)), parse_u32(spec_trim(h)), e.0 && e.1))
        },
    }
}

fn trimmed_u32(v: &Vec<char>, from: usize, to: usize) -> (r: Option<u32>)
    requires
        from <= to <= v@.len(),
    ensures
        r == parse_u32(spec_trim(v@.subrange(from as int, to as int))),
{
    let t = trim_chars(&sub_vec(v, from, to));
    let w = to_chars(t.as_str());
    assert(w@.subrange(0, w@.len() as int) =~= w@);
    parse_u32_of(&w, 0, w.len())
}

/// Reads what the Windows query prints (see `spec_windows_screen`); `None`
/// when it is not of that shape.
pub fn windows_screen(out: &str) -> (r: Option<Display>)
    ensures
        match spec_windows_screen(out@) {
            None => r is None,
            Some((hz, h, capable)) => (r matches Some(d) && d.refresh_hz == hz && d.height_px == h && d.vrr_capable
                == capable && d.vrr_active == capable && d.source@ == "Windows"@),
        },
        r matches Some(d) ==> vrr_consistent(d),
{
    let t = trim(out);
    let v = to_chars(t.as_str());
    let n = v.len();
    let ghost tv = spec_trim(out@);
    assert(v@.subrange(0, n as int) =~= tv);
    proof {
        lemma_find_char(tv, '|');
    }
    let p = match find_in(&v, 0, n, '|') {
        Some(p) => p,
        None => return None,
    };
    let ghost hz_h = v@.subrange(0, p as int);
    assert(tv.subrange(0, p as int) =~= hz_h);
    assert(hz_h.subrange(0, hz_h.len() as int) =~= hz_h);
    proof {
        lemma_find_char(hz_h, ';');
    }
    let (hz, h) = match find_in(&v, 0, p, ';') {
        Some(q) => {
            assert(hz_h.subrange(0, q as int) =~= v@.subrange(0, q as int));
            assert(hz_h.subrange(q + 1, hz_h.len() as int) =~= v@.subrange(q + 1, p as int));
            (trimmed_u32(&v, 0, q), trimmed_u32(&v, q + 1, p))
        },
        None => {
            assert(v@.subrange(p as int, p as int) =~= Seq::<char>::empty());
            (trimmed_u32(&v, 0, p), trimmed_u32(&v, p, p))
        },
    };
    let ghost edids = v@.subrange(p + 1, n as int);
    assert(tv.subrange(p + 1, tv.len() as int) =~= edids);
    let ranges = split_ranges(&v, p + 1, n, ',');
    let ghost parts = split_on(edids, ',');
    let mut any = false;
    let mut all = true;
    let mut i: usize = 0;
    while i < ranges.len()
        invariant
            i <= ranges@.len(),
            parts == split_on(edids, ','),
            ranges@.len() == parts.len(),
            Seq::new(ranges@.len(), |k: int| v@.subrange(ranges@[k].0 as int, ranges@[k].1 as int)) == parts,
            forall|k: int| 0 <= k < ranges@.len() ==> (#[trigger] ranges@[k]).0 <= ranges@[k].1 <= v@.len(),
            edids_vrr(parts.take(i as int)) == (any, all),
        decreases ranges.len() - i,
    {
        let ghost tk = parts.take(i + 1);
        assert(tk.drop_last() =~= parts.take(i as int));
        let (a, b) = ranges[i];
        assert(tk.last() == parts[i as int]);
        assert(parts[i as int] == v@.subrange(a as int, b as int));
        if a < b {
            let s = string_of(v.as_slice(), a, b);
            match b64_decode(s.as_str()) {
                Some(e) => {
                    any = true;
                    all = all && edid_vrr_capable(e.as_slice());
                },
                None => {},
            }
        }
        i = i + 1;
    }
    assert(parts.take(parts.len() as int) =~= parts);
    let capable = any && all;
    Some(Display { refresh_hz: hz, height_px: h, vrr_capable: capable, vrr_active: capable, source: "Windows".to_string() })
}


// ─── KDE ────────────────────────────────────────────────────────────────────

/// What `kscreen-doctor -j` tells of an output, as plain values.
#[derive(Clone, Debug)]
pub struct KdeOutput {
    pub enabled: Option<bool>,
    /// 1 for the main screen.
    pub priority: Option<u64>,
    pub name: Option<String>,
    pub current_mode: Option<String>,
    /// The `id` of each of its modes.
    pub mode_ids: Vec<Option<String>>,
    /// 0: never, 1: always, 2: automatic (full screen).
    pub vrr_policy: Option<u64>,
}

/// The priority an output is ranked by (none: last).
pub open spec fn kde_rank(o: KdeOutput) -> u64 {
    match o.priority {
        Some(p) => p,
        None => u64::MAX,
    }
}

/// The main screen: among the enabled outputs, the first of smallest
/// priority.
pub open spec fn is_kde_primary(outputs: Seq<KdeOutput>, i: int) -> bool {
    &&& 0 <= i < outputs.len()
    &&& outputs[i].enabled == Some(true)
    &&& forall|j: int| 0 <= j < outputs.len() && #[trigger] outputs[j].enabled == Some(true) ==> kde_rank(outputs[i]) <= kde_rank(outputs[j])
    &&& forall|j: int| 0 <= j < i && #[trigger] outputs[j].enabled == Some(true) ==> kde_rank(outputs[j]) > kde_rank(outputs[i])
}

/// Index of the main screen among KDE's outputs; `None` when none is
/// enabled.
pub fn kde_primary(outputs: &Vec<KdeOutput>) -> (r: Option<usize>)
    ensures
        match r {
            Some(i) => is_kde_primary(outputs@, i as int),
            None => forall|j: int| 0 <= j < outputs@.len() ==> (#[trigger] outputs@[j]).enabled != Some(true),
        },
{
    let mut best: Option<usize> = None;
    let mut i: usize = 0;
    while i < outputs.len()
        invariant
            i <= outputs@.len(),
            match best {
                Some(b) => b < i && is_kde_primary(outputs@.take(i as int), b as int),
                None => forall|j: int| 0 <= j < i ==> (#[trigger] outputs@[j]).enabled != Some(true),
            },
        decreases outputs.len() - i,
    {
        let ghost t = outputs@.take(i + 1);
        let ghost p = outputs@.take(i as int);
        assert forall|j: int| 0 <= j < i implies #[trigger] t[j] == p[j] && p[j] == outputs@[j] by {}
        if outputs[i].enabled == Some(true) {
            let rank = match outputs[i].priority {
                Some(x) => x,
                None => u64::MAX,
            };
            match best {
                None => {
                    best = Some(i);
                },
                Some(b) => {
                    let brank = match outputs[b].priority {
                        Some(x) => x,
                        None => u64::MAX,
                    };
                    if rank < brank {
                        best = Some(i);
                    }
                },
            }
        }
        proof {
            match best {
                Some(b) => {
                    assert(t[b as int] == outputs@[b as int]);
                    assert forall|j: int| 0 <= j < t.len() && #[trigger] t[j].enabled == Some(true) implies kde_rank(t[b as int]) <= kde_rank(t[j]) by {
                        if j < i {
                            assert(p[j].enabled == Some(true));
                        }
                    }
                    assert forall|j: int| 0 <= j < b && #[trigger] t[j].enabled == Some(true) implies kde_rank(t[j]) > kde_rank(t[b as int]) by {
                        assert(p[j].enabled == Some(true));
                        if b < i {
                            assert(p[b as int] == t[b as int]);
                        }
                    }
                },
                None => {},
            }
        }
        i = i + 1;
    }
    assert(outputs@.take(outputs@.len() as int) =~= outputs@);
    best
}

/// The current mode of an output: the first of its modes whose id is its
/// current mode's (an absent current mode reads as empty).
pub open spec fn is_kde_current(o: KdeOutput, j: int) -> bool {
    let cur = match o.current_mode {
        Some(c) => c@,
        None => Seq::empty(),
    };
    &&& 0 <= j < o.mode_ids.len()
    &&& opt_view(o.mode_ids@[j]) == Some(cur)
    &&& forall|k: int| 0 <= k < j ==> opt_view(#[trigger] o.mode_ids@[k]) != Some(cur)
}

/// Index of the current mode of an output, if it lists it.
pub fn kde_current_mode(o: &KdeOutput) -> (r: Option<usize>)
    ensures
        match r {
            Some(j) => is_kde_current(*o, j as int),
            None => forall|k: int| 0 <= k < o.mode_ids@.len() ==> opt_view(#[trigger] o.mode_ids@[k]) != Some(
                match o.current_mode {
                    Some(c) => c@,
                    None => Seq::<char>::empty(),
                },
            ),
        },
{
    let cur = match &o.current_mode {
        Some(c) => c.clone(),
        None => String::new(),
    };
    let mut j: usize = 0;
    while j < o.mode_ids.len()
        invariant
            j <= o.mode_ids@.len(),
            cur@ == match o.current_mode {
                Some(c) => c@,
                None => Seq::<char>::empty(),
            },
            forall|k: int| 0 <= k < j ==> opt_view(#[trigger] o.mode_ids@[k]) != Some(cur@),
        decreases o.mode_ids.len() - j,
    {
        let same = match &o.mode_ids[j] {
            Some(id) => str_eq(id.as_str(), cur.as_str()),
            None => false,
        };
        if same {
            return Some(j);
        }
        j = j + 1;
    }
    None
}

/// VRR is active on KDE when the screen can do it and the output's policy
/// is not "never".
pub fn kde_vrr_active(capable: bool, policy: Option<u64>) -> (r: bool)
    ensures
        r == (capable && match policy {
            Some(p) => p != 0,
            None => false,
        }),
{
    capable && match policy {
        Some(p) => p != 0,
        None => false,
    }
}

// ─── macOS ──────────────────────────────────────────────────────────────────

/// The main screen of `system_profiler`: the first marked `spdisplays_yes`,
/// else the first one.
pub open spec fn spec_mac_main(mains: Seq<Option<String>>) -> Option<int> {
    if mains.len() == 0 {
        None
    } else {
        match first_yes(mains) {
            Some(i) => Some(i),
            None => Some(0),
        }
    }
}

/// Index of the first `spdisplays_yes`.
pub open spec fn first_yes(mains: Seq<Option<String>>) -> Option<int>
    decreases mains.len(),
{
    if mains.len() == 0 {
        None
    } else if opt_view(mains[0]) == Some("spdisplays_yes"@) {
        Some(0)
    } else {
        match first_yes(mains.drop_first()) {
            Some(i) => Some(i + 1),
            None => None,
        }
    }
}

/// The main screen among the displays (`mains`: each one's
/// `spdisplays_main`).
pub fn mac_main(mains: &Vec<Option<String>>) -> (r: Option<usize>)
    ensures
        match spec_mac_main(mains@) {
            Some(i) => r == Some(i as usize),
            None => r is None,
        },
{
    if mains.len() == 0 {
        return None;
    }
    let mut i: usize = 0;
    assert(mains@.subrange(0, mains@.len() as int) =~= mains@);
    while i < mains.len()
        invariant
            i <= mains@.len(),
            first_yes(mains@) == match first_yes(mains@.subrange(i as int, mains@.len() as int)) {
                Some(k) => Some(k + i),
                None => None,
            },
        decreases mains.len() - i,
    {
        let ghost rest = mains@.subrange(i as int, mains@.len() as int);
        assert(rest[0] == mains@[i as int]);
        let yes = match &mains[i] {
            Some(m) => str_eq(m.as_str(), "spdisplays_yes"),
            None => false,
        };
        if yes {
            return Some(i);
        }
        assert(rest.drop_first() =~= mains@.subrange(i + 1, mains@.len() as int));
        i = i + 1;
    }
    assert(mains@.subrange(i as int, mains@.len() as int) =~= Seq::<Option<String>>::empty());
    Some(0)
}

/// `s` without a trailing `Hz`, repeatedly (`trim_end_matches("Hz")`).
pub open spec fn trim_end_hz(s: Seq<char>) -> Seq<char>
    decreases s.len(),
{
    if s.len() >= 2 && s[s.len() - 2] == 'H' && s[s.len() - 1] == 'z' {
        trim_end_hz(s.subrange(0, s.len() - 2))
    } else {
        s
    }
}

/// The refresh rate written in a resolution (`2560 x 1440 @ 144.00Hz`):
/// the text after the first `@`, trimmed and without its `Hz`, when it
/// reads as a number.
pub open spec fn spec_mac_rate(res: Seq<char>) -> Option<Seq<char>> {
    let parts = split_on(res, '@');
    if parts.len() > 1 && is_float_text(spec_trim(trim_end_hz(spec_trim(parts[1])))) {
        Some(spec_trim(trim_end_hz(spec_trim(parts[1]))))
    } else {
        None
    }
}

/// See `spec_mac_rate`.
pub fn mac_rate(res: &str) -> (r: Option<String>)
    ensures
        opt_view(r) == spec_mac_rate(res@),
{
    let v = to_chars(res);
    let n = v.len();
    let ranges = split_ranges(&v, 0, n, '@');
    assert(v@.subrange(0, n as int) =~= res@);
    if ranges.len() <= 1 {
        return None;
    }
    let (a, b) = ranges[1];
    let ghost part = v@.subrange(a as int, b as int);
    let t = trim_chars(&sub_vec(&v, a, b));
    let w = to_chars(t.as_str());
    assert(w@.subrange(0, w@.len() as int) =~= w@);
    let mut e = w.len();
    while e >= 2 && w[e - 2] == 'H' && w[e - 1] == 'z'
        invariant
            e <= w@.len(),
            trim_end_hz(w@) == trim_end_hz(w@.subrange(0, e as int)),
        decreases e,
    {
        assert(w@.subrange(0, e as int).subrange(0, e - 2) =~= w@.subrange(0, e - 2));
        e = e - 2;
    }
    assert(w@.subrange(0, w@.len() as int) =~= w@);
    let x = trim_chars(&sub_vec(&w, 0, e));
    if float_text(x.as_str()) {
        Some(x)
    } else {
        None
    }
}

/// The height written in a size (`3024 x 1964`): the first word after the
/// first `x`, as a number.
pub open spec fn spec_mac_height(size: Seq<char>) -> Option<u32> {
    let parts = split_on(size, 'x');
    if parts.len() > 1 && words(parts[1]).len() > 0 {
        parse_u32(words(parts[1])[0])
    } else {
        None
    }
}

/// See `spec_mac_height`.
pub fn mac_height(size: &str) -> (r: Option<u32>)
    ensures
        r == spec_mac_height(size@),
{
    let v = to_chars(size);
    let n = v.len();
    let ranges = split_ranges(&v, 0, n, 'x');
    assert(v@.subrange(0, n as int) =~= size@);
    if ranges.len() <= 1 {
        return None;
    }
    let (a, b) = ranges[1];
    let part = string_of(v.as_slice(), a, b);
    let ws = words_of(part.as_str());
    if ws.len() == 0 {
        return None;
    }
    let w = to_chars(ws[0].as_str());
    assert(w@.subrange(0, w@.len() as int) =~= w@);
    parse_u32_of(&w, 0, w.len())
}

} // verus!
