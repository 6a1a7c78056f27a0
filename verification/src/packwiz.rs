//! Pack synchronisation: packwiz-installer, without interface, in the game
//! directory. Running it and touching files happen outside the library;
//! here is how its output is read and what is decided from the pack's
//! manifest (`packwiz.json`).

use vstd::prelude::*;

use crate::text::{
    spec_decimal,
    contains, contains_str, find_char, find_in, is_space, lemma_find_char, spec_trim, split_once,
    starts_with, starts_with_str, str_eq, string_of, to_chars, trim_chars, sub_vec,
};

verus! {

/// Directory (in the instance) where mods added by hand are put aside.
pub const MODS_SET_ASIDE: &'static str = "mods-desactives";

/// Value of a string of decimal digits.
pub open spec fn digits_value(s: Seq<char>) -> nat
    decreases s.len(),
{
    if s.len() == 0 {
        0
    } else {
        digits_value(s.drop_last()) * 10 + ((s.last() as u32) - 48) as nat
    }
}

/// Every character of `s` is a decimal digit.
pub open spec fn all_digits(s: Seq<char>) -> bool {
    forall|i: int| 0 <= i < s.len() ==> '0' <= #[trigger] s[i] <= '9'
}

/// `str::parse::<u64>`: an optional `+`, then at least one digit, and a
/// value that fits.
pub open spec fn parse_u64(s: Seq<char>) -> Option<u64> {
    let d = if s.len() > 0 && s[0] == '+' { s.drop_first() } else { s };
    if d.len() > 0 && all_digits(d) && digits_value(d) <= u64::MAX {
        Some(digits_value(d) as u64)
    } else {
        None
    }
}

proof fn lemma_digits_push(s: Seq<char>, c: char)
    ensures
        digits_value(s.push(c)) == digits_value(s) * 10 + ((c as u32) - 48) as nat,
{
    assert(s.push(c).drop_last() =~= s);
}

proof fn lemma_digits_grow(s: Seq<char>, i: int)
    requires
        all_digits(s),
        0 <= i <= s.len(),
    ensures
        digits_value(s.take(i)) <= digits_value(s),
    decreases s.len() - i,
{
    if i < s.len() {
        lemma_digits_grow(s, i + 1);
        assert(s.take(i + 1).drop_last() =~= s.take(i));
        assert('0' <= s[i] <= '9');
    } else {
        assert(s.take(i) =~= s);
    }
}

/// Parses `v[from..to]` as a `u64` (see `parse_u64`).
pub fn parse_u64_in(v: &Vec<char>, from: usize, to: usize) -> (r: Option<u64>)
    requires
        from <= to <= v@.len(),
    ensures
        r == parse_u64(v@.subrange(from as int, to as int)),
{
    let ghost s = v@.subrange(from as int, to as int);
    let mut a = from;
    if a < to && v[a] == '+' {
        a = a + 1;
    }
    let ghost d = v@.subrange(a as int, to as int);
    assert(d == if s.len() > 0 && s[0] == '+' { s.drop_first() } else { s });
    if a == to {
        return None;
    }
    let mut value: u64 = 0;
    let mut i = a;
    while i < to
        invariant
            from <= a <= i <= to <= v@.len(),
            a < to,
            s == v@.subrange(from as int, to as int),
            d == v@.subrange(a as int, to as int),
            d == if s.len() > 0 && s[0] == '+' { s.drop_first() } else { s },
            all_digits(v@.subrange(a as int, i as int)),
            value == digits_value(v@.subrange(a as int, i as int)),
        decreases to - i,
    {
        let c = v[i];
        proof {
            assert(v@.subrange(a as int, i + 1) =~= v@.subrange(a as int, i as int).push(c));
            lemma_digits_push(v@.subrange(a as int, i as int), c);
        }
        if c < '0' || c > '9' {
            assert(!all_digits(d)) by {
                assert(d[i - a] == c);
            }
            return None;
        }
        let digit = (c as u32 - 48) as u64;
        if value > (u64::MAX - digit) / 10 {
            proof {
                assert(value * 10 + digit > u64::MAX) by (nonlinear_arith)
                    requires
                        value > (u64::MAX - digit) / 10,
                        digit <= 9,
                ;
                if all_digits(d) {
                    assert(v@.subrange(a as int, i + 1) == d.take(i + 1 - a));
                    lemma_digits_grow(d, i + 1 - a);
                }
            }
            return None;
        }
        assert(value * 10 + digit <= u64::MAX) by (nonlinear_arith)
            requires
                value <= (u64::MAX - digit) / 10,
                digit <= 9,
        ;
        value = value * 10 + digit;
        i = i + 1;
    }
    Some(value)
}

/// The two sides of the counter of a line: from the first `(` to the next
/// `)`, split at the first `/`.
pub open spec fn counter_sides(line: Seq<char>) -> Option<(Seq<char>, Seq<char>)> {
    match find_char(line, '(') {
        None => None,
        Some(s) => match find_char(line.subrange(s, line.len() as int), ')') {
            None => None,
            Some(k) => split_once(line.subrange(s + 1, s + k), '/'),
        },
    }
}

/// The counter `(done/total)` of a line of packwiz-installer's output: two
/// numbers, spaces around them allowed.
pub open spec fn spec_counter(line: Seq<char>) -> Option<(u64, u64)> {
    match counter_sides(line) {
        None => None,
        Some(ab) => match (parse_u64(spec_trim(ab.0)), parse_u64(spec_trim(ab.1))) {
            (Some(a), Some(b)) => Some((a, b)),
            _ => None,
        },
    }
}

fn sides_of(line: &str) -> (r: Option<(Vec<char>, Vec<char>)>)
    ensures
        match counter_sides(line@) {
            None => r is None,
            Some(ab) => (r matches Some((a, b)) && a@ == ab.0 && b@ == ab.1),
        },
{
    let v = to_chars(line);
    let n = v.len();
    proof {
        assert(v@.subrange(0, n as int) =~= v@);
        lemma_find_char(v@, '(');
    }
    let s = match find_in(&v, 0, n, '(') {
        Some(s) => s,
        None => return None,
    };
    proof {
        lemma_find_char(v@.subrange(s as int, n as int), ')');
    }
    let e = match find_in(&v, s, n, ')') {
        Some(e) => e,
        None => return None,
    };
    assert(s < e);
    let ghost inner = v@.subrange(s + 1, e as int);
    assert(inner == line@.subrange(s + 1, s + (e - s)));
    proof {
        lemma_find_char(inner, '/');
    }
    let m = match find_in(&v, s + 1, e, '/') {
        Some(m) => m,
        None => return None,
    };
    proof {
        assert(inner.subrange(0, m - (s + 1)) =~= v@.subrange(s + 1, m as int));
        assert(inner.subrange(m - (s + 1) + 1, inner.len() as int) =~= v@.subrange(m + 1, e as int));
    }
    Some((sub_vec(&v, s + 1, m), sub_vec(&v, m + 1, e)))
}

/// `v`, trimmed, parsed as a `u64`.
fn parse_trimmed(v: &Vec<char>) -> (r: Option<u64>)
    ensures
        r == parse_u64(spec_trim(v@)),
{
    let a = trim_chars(v);
    let av = to_chars(a.as_str());
    proof {
        assert(av@.subrange(0, av@.len() as int) =~= av@);
    }
    parse_u64_in(&av, 0, av.len())
}

/// Reads the counter `(123/749)` of a line of packwiz-installer's output.
pub fn parse_counter(line: &str) -> (r: Option<(u64, u64)>)
    ensures
        r == spec_counter(line@),
{
    let (a, b) = match sides_of(line) {
        Some(ab) => ab,
        None => return None,
    };
    match (parse_trimmed(&a), parse_trimmed(&b)) {
        (Some(x), Some(y)) => Some((x, y)),
        _ => None,
    }
}

/// The lines of packwiz-installer's output shown in the launcher's log.
pub open spec fn failure_line(line: Seq<char>) -> bool {
    contains(line, "Failed"@) || contains(line, "Invalid"@) || contains(line, "Error"@)
}

pub fn is_failure_line(line: &str) -> (r: bool)
    ensures
        r == failure_line(line@),
{
    contains_str(line, "Failed") || contains_str(line, "Invalid") || contains_str(line, "Error")
}

// ─── Optional mods ──────────────────────────────────────────────────────────

/// Whether `names` holds `s`.
pub open spec fn holds(names: Seq<String>, s: Seq<char>) -> bool {
    exists|i: int| 0 <= i < names.len() && (#[trigger] names[i])@ == s
}

fn holds_exec(names: &Vec<String>, s: &str) -> (r: bool)
    ensures
        r == holds(names@, s@),
{
    let mut i: usize = 0;
    while i < names.len()
        invariant
            i <= names@.len(),
            forall|j: int| 0 <= j < i ==> (#[trigger] names@[j])@ != s@,
        decreases names.len() - i,
    {
        if str_eq(names[i].as_str(), s) {
            return true;
        }
        i = i + 1;
    }
    false
}

/// The `optionValue` writes needed: for each optional file known to
/// `packwiz.json` (`present`: its path and its current value, if it is a
/// boolean), the wanted value (enabled or not) where it differs. Anything
/// written means the pack must be synchronised again.
pub open spec fn spec_optional_updates(present: Seq<(Seq<char>, Option<bool>)>, enabled: Seq<String>) -> Seq<(Seq<char>, bool)>
    decreases present.len(),
{
    if present.len() == 0 {
        Seq::empty()
    } else {
        let rest = spec_optional_updates(present.drop_last(), enabled);
        let (path, current) = present.last();
        let want = holds(enabled, path);
        if current != Some(want) {
            rest.push((path, want))
        } else {
            rest
        }
    }
}

/// Each optional file at its wanted value: enabled exactly when its path
/// is among those of the groups enabled.
pub open spec fn settled(present: Seq<(Seq<char>, Option<bool>)>, enabled: Seq<String>) -> Seq<(Seq<char>, Option<bool>)> {
    Seq::new(present.len(), |i: int| (present[i].0, Some(holds(enabled, present[i].0))))
}

/// Once the writes are made, there is nothing more to write: each optional
/// file either already had its wanted value or is written with it, and
/// files all at their wanted value need no write.
pub proof fn lemma_optional_updates_settle(present: Seq<(Seq<char>, Option<bool>)>, enabled: Seq<String>)
    ensures
        forall|i: int| 0 <= i < present.len() ==> (#[trigger] present[i]).1 == Some(holds(enabled, present[i].0)) || exists|j: int|
            0 <= j < spec_optional_updates(present, enabled).len() && spec_optional_updates(present, enabled)[j] == (
                present[i].0,
                holds(enabled, present[i].0),
            ),
        spec_optional_updates(settled(present, enabled), enabled).len() == 0,
    decreases present.len(),
{
    if present.len() > 0 {
        let p = present.drop_last();
        lemma_optional_updates_settle(p, enabled);
        assert(settled(present, enabled).drop_last() =~= settled(p, enabled));
        let u = spec_optional_updates(present, enabled);
        let up = spec_optional_updates(p, enabled);
        assert forall|i: int| 0 <= i < present.len() implies (#[trigger] present[i]).1 == Some(holds(enabled, present[i].0)) || exists|j: int|
            0 <= j < u.len() && u[j] == (present[i].0, holds(enabled, present[i].0)) by {
            if i < p.len() {
                assert(present[i] == p[i]);
                if p[i].1 != Some(holds(enabled, p[i].0)) {
                    let j = choose|j: int| 0 <= j < up.len() && up[j] == (p[i].0, holds(enabled, p[i].0));
                    assert(u[j] == up[j]);
                }
            } else if present[i].1 != Some(holds(enabled, present[i].0)) {
                assert(u[up.len() as int] == (present[i].0, holds(enabled, present[i].0)));
            }
        }
    }
}

/// The optional files with their current values, paths as text.
pub open spec fn present_view(present: Seq<(String, Option<bool>)>) -> Seq<(Seq<char>, Option<bool>)> {
    Seq::new(present.len(), |i: int| (present[i].0@, present[i].1))
}

/// See `spec_optional_updates`.
pub fn optional_updates(present: &Vec<(String, Option<bool>)>, enabled: &Vec<String>) -> (r: Vec<(String, bool)>)
    ensures
        Seq::new(r@.len(), |i: int| (r@[i].0@, r@[i].1)) == spec_optional_updates(present_view(present@), enabled@),
{
    let mut r: Vec<(String, bool)> = Vec::new();
    let mut i: usize = 0;
    while i < present.len()
        invariant
            i <= present@.len(),
            Seq::new(r@.len(), |j: int| (r@[j].0@, r@[j].1)) == spec_optional_updates(present_view(present@.take(i as int)), enabled@),
        decreases present.len() - i,
    {
        let ghost t = present@.take(i + 1);
        assert(t.drop_last() =~= present@.take(i as int));
        assert(t.last() == present@[i as int]);
        assert(present_view(t).drop_last() =~= present_view(present@.take(i as int)));
        let want = holds_exec(enabled, present[i].0.as_str());
        let same = match present[i].1 {
            Some(b) => b == want,
            None => false,
        };
        if !same {
            let ghost before = r@;
            r.push((present[i].0.clone(), want));
            assert(Seq::new(r@.len(), |j: int| (r@[j].0@, r@[j].1)) =~= Seq::new(
                before.len(),
                |j: int| (before[j].0@, before[j].1),
            ).push((present@[i as int].0@, want)));
        }
        i = i + 1;
    }
    assert(present@.take(present@.len() as int) =~= present@);
    r
}

// ─── Mods added by hand ─────────────────────────────────────────────────────

/// The file names the pack installed in `mods/`: the `cachedLocation`s of
/// `packwiz.json` under `mods/`, without that prefix.
pub open spec fn spec_known_mods(locations: Seq<String>) -> Seq<Seq<char>>
    decreases locations.len(),
{
    if locations.len() == 0 {
        Seq::empty()
    } else {
        let rest = spec_known_mods(locations.drop_last());
        let l = locations.last()@;
        if starts_with(l, "mods/"@) {
            rest.push(l.subrange(5, l.len() as int))
        } else {
            rest
        }
    }
}

pub fn known_mods(locations: &Vec<String>) -> (r: Vec<String>)
    ensures
        Seq::new(r@.len(), |i: int| r@[i]@) == spec_known_mods(locations@),
{
    let mut r: Vec<String> = Vec::new();
    let mut i: usize = 0;
    while i < locations.len()
        invariant
            i <= locations@.len(),
            Seq::new(r@.len(), |j: int| r@[j]@) == spec_known_mods(locations@.take(i as int)),
        decreases locations.len() - i,
    {
        let ghost t = locations@.take(i + 1);
        assert(t.drop_last() =~= locations@.take(i as int));
        assert(t.last() == locations@[i as int]);
        let l = locations[i].as_str();
        proof {
            reveal_strlit("mods/");
        }
        if starts_with_str(l, "mods/") {
            let v = to_chars(l);
            let name = string_of(v.as_slice(), 5, v.len());
            let ghost before = r@;
            r.push(name);
            assert(Seq::new(r@.len(), |j: int| r@[j]@) =~= Seq::new(before.len(), |j: int| before[j]@).push(name@));
        }
        i = i + 1;
    }
    assert(locations@.take(locations@.len() as int) =~= locations@);
    r
}

/// The lower case of a text (computed by `str::to_lowercase`).
pub uninterp spec fn lowercase_of(s: Seq<char>) -> Seq<char>;

/// `str::to_lowercase`: the text in lower case, by the Unicode rules.
/// Trusted: the result is only named (`lowercase_of`).
#[verifier::external_body]
fn to_lowercase(s: &str) -> (r: String)
    ensures
        r@ == lowercase_of(s@),
{
    s.to_lowercase()
}

/// `s` ends with `p`.
pub open spec fn ends_with(s: Seq<char>, p: Seq<char>) -> bool {
    p.len() <= s.len() && s.subrange(s.len() - p.len(), s.len() as int) == p
}

pub(crate) fn ends_with_str(s: &str, p: &str) -> (r: bool)
    ensures
        r == ends_with(s@, p@),
{
    let n = s.unicode_len();
    let m = p.unicode_len();
    if m > n {
        return false;
    }
    let mut i: usize = 0;
    while i < m
        invariant
            n == s@.len(),
            m == p@.len(),
            m <= n,
            i <= m,
            forall|j: int| 0 <= j < i ==> s@[n - m + j] == #[trigger] p@[j],
        decreases m - i,
    {
        if s.get_char(n - m + i) != p.get_char(i) {
            assert(s@.subrange(n - m, n as int)[i as int] != p@[i as int]);
            return false;
        }
        i = i + 1;
    }
    assert(s@.subrange(n - m, n as int) =~= p@);
    true
}

/// A file of `mods/` is a mod when its name, in lower case, ends with
/// `.jar` or `.zip`.
pub open spec fn is_mod_name(name: Seq<char>) -> bool {
    ends_with(lowercase_of(name), ".jar"@) || ends_with(lowercase_of(name), ".zip"@)
}

/// A file of `mods/` is put aside when it is a regular file, a mod, and not
/// one the pack installed. Nothing is put aside when the pack's manifest
/// names no mod at all (better one mod too many than an emptied folder).
pub open spec fn spec_set_aside(name: Seq<char>, is_file: bool, known: Seq<String>) -> bool {
    known.len() > 0 && is_file && is_mod_name(name) && !holds(known, name)
}

pub fn should_set_aside(name: &str, is_file: bool, known: &Vec<String>) -> (r: bool)
    ensures
        r == spec_set_aside(name@, is_file, known@),
{
    if known.len() == 0 || !is_file {
        return false;
    }
    let lower = to_lowercase(name);
    let is_mod = ends_with_str(lower.as_str(), ".jar") || ends_with_str(lower.as_str(), ".zip");
    is_mod && !holds_exec(known, name)
}

/// The name a file put aside takes at try `n`: its own, or `<n>-<name>`
/// when the names before are taken (nothing already put aside is
/// overwritten).
pub open spec fn spec_aside_name(name: Seq<char>, n: nat) -> Seq<char> {
    if n <= 1 {
        name
    } else {
        spec_decimal(n) + "-"@ + name
    }
}

pub fn aside_name(name: &str, n: u64) -> (r: String)
    ensures
        r@ == spec_aside_name(name@, n as nat),
{
    if n <= 1 {
        name.to_owned()
    } else {
        let mut r = crate::text::decimal(n);
        r.append("-");
        r.append(name);
        r
    }
}

/// The decimal writing of `n`: digits only, one at least, two from 10 on.
proof fn lemma_decimal_digits(n: nat)
    ensures
        spec_decimal(n).len() >= 1,
        n >= 10 ==> spec_decimal(n).len() >= 2,
        forall|i: int| 0 <= i < spec_decimal(n).len() ==> '0' <= #[trigger] spec_decimal(n)[i] <= '9',
    decreases n,
{
    if n >= 10 {
        lemma_decimal_digits(n / 10);
        let p = spec_decimal(n / 10);
        assert forall|i: int| 0 <= i < spec_decimal(n).len() implies '0' <= #[trigger] spec_decimal(n)[i] <= '9' by {
            if i < p.len() {
                assert(spec_decimal(n)[i] == p[i]);
            }
        }
    }
}

proof fn lemma_digit_char_injective(x: nat, y: nat)
    requires
        x < 10,
        y < 10,
        crate::text::digit_char(x) == crate::text::digit_char(y),
    ensures
        x == y,
{
    assert(crate::text::digit_char(x) as u32 == 48 + x);
    assert(crate::text::digit_char(y) as u32 == 48 + y);
}

/// Two numbers are written alike only when they are equal.
proof fn lemma_decimal_injective(a: nat, b: nat)
    requires
        spec_decimal(a) == spec_decimal(b),
    ensures
        a == b,
    decreases a,
{
    lemma_decimal_digits(a);
    lemma_decimal_digits(b);
    if a < 10 && b < 10 {
        assert(spec_decimal(a) == seq![crate::text::digit_char(a)]);
        assert(spec_decimal(b) == seq![crate::text::digit_char(b)]);
        assert(spec_decimal(a)[0] == crate::text::digit_char(a));
        assert(spec_decimal(b)[0] == crate::text::digit_char(b));
        lemma_digit_char_injective(a, b);
    } else if a >= 10 && b >= 10 {
        let s = spec_decimal(a);
        let pa = spec_decimal(a / 10);
        let pb = spec_decimal(b / 10);
        assert(s.last() == spec_decimal(b).last());
        assert(s.drop_last() =~= pa);
        assert(spec_decimal(b).drop_last() =~= pb);
        lemma_decimal_injective(a / 10, b / 10);
        lemma_digit_char_injective(a % 10, b % 10);
    }
}

/// A file put aside never takes the name of one put aside at another try:
/// the names of two different tries differ.
pub proof fn lemma_aside_names_differ(name: Seq<char>, n1: nat, n2: nat)
    requires
        1 <= n1,
        1 <= n2,
        n1 != n2,
    ensures
        spec_aside_name(name, n1) != spec_aside_name(name, n2),
{
    lemma_decimal_digits(n1);
    lemma_decimal_digits(n2);
    reveal_strlit("-");
    let a = spec_aside_name(name, n1);
    let b = spec_aside_name(name, n2);
    if n1 > 1 && n2 > 1 && a == b {
        let d1 = spec_decimal(n1);
        let d2 = spec_decimal(n2);
        // the first `-` closes the number
        if d1.len() < d2.len() {
            assert(a[d1.len() as int] == '-');
            assert(b[d1.len() as int] == d2[d1.len() as int]);
        } else if d2.len() < d1.len() {
            assert(b[d2.len() as int] == '-');
            assert(a[d2.len() as int] == d1[d2.len() as int]);
        } else {
            assert(a.subrange(0, d1.len() as int) =~= d1);
            assert(b.subrange(0, d2.len() as int) =~= d2);
            lemma_decimal_injective(n1, n2);
        }
    } else if n1 > 1 && n2 <= 1 {
        assert(a.len() > b.len());
    } else if n2 > 1 && n1 <= 1 {
        assert(b.len() > a.len());
    }
}


/// The bootstrap of packwiz-installer and the installer it runs, in the
/// tools directory.
pub const BOOTSTRAP_JAR: &'static str = "packwiz-installer-bootstrap.jar";

pub const INSTALLER_JAR: &'static str = "packwiz-installer.jar";

/// The arguments given to Java, after its own options, to synchronise the
/// pack: the bootstrap, told not to update itself and which installer to
/// run (without these two it asks GitHub's API at each launch, without
/// authentication: HTTP 403 once the quota is reached), then no interface
/// (`-g`), the client side (`-s client`), and the pack's URL.
pub open spec fn spec_installer_args(tools: Seq<char>, pack_url: Seq<char>) -> Seq<Seq<char>> {
    seq![
        "-jar"@,
        crate::paths::spec_join(tools, BOOTSTRAP_JAR@),
        "--bootstrap-no-update"@,
        "--bootstrap-main-jar"@,
        crate::paths::spec_join(tools, INSTALLER_JAR@),
        "-g"@,
        "-s"@,
        "client"@,
        pack_url,
    ]
}

/// See `spec_installer_args`.
pub fn installer_args(tools: &str, pack_url: &str) -> (r: Vec<String>)
    ensures
        r@.len() == 9,
        forall|i: int| 0 <= i < 9 ==> (#[trigger] r@[i])@ == spec_installer_args(tools@, pack_url@)[i],
{
    let r = vec![
        "-jar".to_owned(),
        crate::paths::join(tools, BOOTSTRAP_JAR),
        "--bootstrap-no-update".to_owned(),
        "--bootstrap-main-jar".to_owned(),
        crate::paths::join(tools, INSTALLER_JAR),
        "-g".to_owned(),
        "-s".to_owned(),
        "client".to_owned(),
        pack_url.to_owned(),
    ];
    r
}


// ─── What packwiz.json says ─────────────────────────────────────────────────

/// One entry of `cachedFiles` in packwiz.json: the file of the pack, where
/// it was installed, the hash of its version in the pack, and, for an
/// optional file, whether it is enabled.
#[derive(Clone, Debug)]
pub struct CachedFile {
    pub path: String,
    pub location: Option<String>,
    pub hash: Option<String>,
    pub option_value: Option<bool>,
}

/// The last entry for the file `f`.
pub open spec fn last_cached(cached: Seq<CachedFile>, f: Seq<char>) -> Option<CachedFile>
    decreases cached.len(),
{
    if cached.len() == 0 {
        None
    } else if cached.last().path@ == f {
        Some(cached.last())
    } else {
        last_cached(cached.drop_last(), f)
    }
}

fn last_cached_in(cached: &Vec<CachedFile>, f: &str) -> (r: Option<usize>)
    ensures
        match last_cached(cached@, f@) {
            Some(c) => r matches Some(i) && i < cached@.len() && cached@[i as int] == c,
            None => r is None,
        },
{
    let mut i = cached.len();
    assert(cached@.take(i as int) =~= cached@);
    while i > 0
        invariant
            i <= cached@.len(),
            last_cached(cached@, f@) == last_cached(cached@.take(i as int), f@),
        decreases i,
    {
        let ghost t = cached@.take(i as int);
        assert(t.drop_last() =~= cached@.take(i - 1));
        assert(t.last() == cached@[i - 1]);
        if str_eq(cached[i - 1].path.as_str(), f) {
            return Some(i - 1);
        }
        i = i - 1;
    }
    None
}

/// For each file of `files`, in order, the hash of its version in the pack,
/// as packwiz-installer noted it; files it has no hash for are left out.
pub open spec fn spec_pack_hashes(cached: Seq<CachedFile>, files: Seq<String>) -> Seq<(Seq<char>, Seq<char>)>
    decreases files.len(),
{
    if files.len() == 0 {
        Seq::empty()
    } else {
        let prev = spec_pack_hashes(cached, files.drop_last());
        match last_cached(cached, files.last()@) {
            Some(c) => match c.hash {
                Some(h) => prev.push((files.last()@, h@)),
                None => prev,
            },
            None => prev,
        }
    }
}

/// See `spec_pack_hashes`.
pub fn pack_hashes_in(cached: &Vec<CachedFile>, files: &Vec<String>) -> (r: Vec<(String, String)>)
    ensures
        Seq::new(r@.len(), |i: int| (r@[i].0@, r@[i].1@)) == spec_pack_hashes(cached@, files@),
{
    let mut r: Vec<(String, String)> = Vec::new();
    let mut i: usize = 0;
    while i < files.len()
        invariant
            i <= files@.len(),
            Seq::new(r@.len(), |j: int| (r@[j].0@, r@[j].1@)) == spec_pack_hashes(cached@, files@.take(i as int)),
        decreases files.len() - i,
    {
        let ghost t = files@.take(i + 1);
        assert(t.drop_last() =~= files@.take(i as int));
        assert(t.last() == files@[i as int]);
        let ghost before = r@;
        match last_cached_in(cached, files[i].as_str()) {
            Some(k) => match &cached[k].hash {
                Some(h) => {
                    r.push((files[i].clone(), h.clone()));
                    assert(Seq::new(r@.len(), |j: int| (r@[j].0@, r@[j].1@)) =~= Seq::new(
                        before.len(),
                        |j: int| (before[j].0@, before[j].1@),
                    ).push((files@[i as int]@, h@)));
                },
                None => {},
            },
            None => {},
        }
        i = i + 1;
    }
    assert(files@.take(files@.len() as int) =~= files@);
    r
}

/// The optional files of the pack that packwiz.json knows, in the order of
/// `all_optional`, each with its current `optionValue`.
pub open spec fn spec_present(cached: Seq<CachedFile>, all_optional: Seq<String>) -> Seq<(Seq<char>, Option<bool>)>
    decreases all_optional.len(),
{
    if all_optional.len() == 0 {
        Seq::empty()
    } else {
        let prev = spec_present(cached, all_optional.drop_last());
        match last_cached(cached, all_optional.last()@) {
            Some(c) => prev.push((all_optional.last()@, c.option_value)),
            None => prev,
        }
    }
}

/// The `optionValue` writes the choice of optional mods needs (see
/// `spec_optional_updates`), for the optional files packwiz.json knows.
pub fn optional_plan(cached: &Vec<CachedFile>, all_optional: &Vec<String>, enabled: &Vec<String>) -> (r: Vec<(String, bool)>)
    ensures
        Seq::new(r@.len(), |i: int| (r@[i].0@, r@[i].1)) == spec_optional_updates(spec_present(cached@, all_optional@), enabled@),
{
    let mut present: Vec<(String, Option<bool>)> = Vec::new();
    let mut i: usize = 0;
    while i < all_optional.len()
        invariant
            i <= all_optional@.len(),
            present_view(present@) == spec_present(cached@, all_optional@.take(i as int)),
        decreases all_optional.len() - i,
    {
        let ghost t = all_optional@.take(i + 1);
        assert(t.drop_last() =~= all_optional@.take(i as int));
        assert(t.last() == all_optional@[i as int]);
        match last_cached_in(cached, all_optional[i].as_str()) {
            Some(k) => {
                let ghost before = present@;
                present.push((all_optional[i].clone(), cached[k].option_value));
                assert(present_view(present@) =~= present_view(before).push((all_optional@[i as int]@, cached@[k as int].option_value)));
            },
            None => {},
        }
        i = i + 1;
    }
    assert(all_optional@.take(all_optional@.len() as int) =~= all_optional@);
    optional_updates(&present, enabled)
}


/// The places packwiz.json says its files were installed at.
pub open spec fn spec_locations(cached: Seq<CachedFile>) -> Seq<String>
    decreases cached.len(),
{
    if cached.len() == 0 {
        Seq::empty()
    } else {
        let prev = spec_locations(cached.drop_last());
        match cached.last().location {
            Some(l) => prev.push(l),
            None => prev,
        }
    }
}

/// `spec_known_mods` reads the locations as text only.
proof fn lemma_known_mods_by_view(a: Seq<String>, b: Seq<String>)
    requires
        a.len() == b.len(),
        forall|i: int| 0 <= i < a.len() ==> (#[trigger] a[i])@ == b[i]@,
    ensures
        spec_known_mods(a) == spec_known_mods(b),
    decreases a.len(),
{
    if a.len() > 0 {
        assert(a.last()@ == b[b.len() - 1]@);
        lemma_known_mods_by_view(a.drop_last(), b.drop_last());
    }
}

/// A file of `mods/` named `name` is put aside, the pack having installed
/// the mods `known` (see `spec_set_aside`).
pub open spec fn set_aside_among(name: Seq<char>, is_file: bool, known: Seq<Seq<char>>) -> bool {
    known.len() > 0 && is_file && is_mod_name(name) && !known.contains(name)
}

/// `name` is one of the entries of `mods/` (`listing`: each name, and
/// whether it is a regular file) to put aside.
pub open spec fn goes_aside(listing: Seq<(String, bool)>, known: Seq<Seq<char>>, name: Seq<char>) -> bool {
    exists|i: int| 0 <= i < listing.len() && (#[trigger] listing[i]).0@ == name && set_aside_among(name, listing[i].1, known)
}

/// The texts of `v` in the order of `str`.
pub open spec fn sorted_texts(v: Seq<String>) -> bool {
    forall|i: int, j: int| 0 <= i < j < v.len() ==> crate::text::lex_le((#[trigger] v[i])@, (#[trigger] v[j])@)
}

/// `x` put into the sorted `v` at its place.
fn insert_sorted(v: &mut Vec<String>, x: String)
    requires
        sorted_texts(old(v)@),
    ensures
        sorted_texts(final(v)@),
        final(v)@.len() == old(v)@.len() + 1,
        forall|s: Seq<char>| #![trigger holds(final(v)@, s)] holds(final(v)@, s) <==> (holds(old(v)@, s) || s == x@),
{
    let mut p: usize = 0;
    while p < v.len() && crate::text::str_le(v[p].as_str(), x.as_str())
        invariant
            p <= v@.len(),
            forall|k: int| 0 <= k < p ==> crate::text::lex_le((#[trigger] v@[k])@, x@),
        decreases v.len() - p,
    {
        p = p + 1;
    }
    let ghost v0 = v@;
    proof {
        if p < v0.len() {
            assert(!crate::text::lex_le(v0[p as int]@, x@));
            crate::text::lemma_lex_total(v0[p as int]@, x@);
        }
    }
    let ghost xv = x@;
    v.insert(p, x);
    proof {
        let v1 = v@;
        assert(v1 =~= v0.insert(p as int, v1[p as int]));
        assert(v1[p as int]@ == xv);
        assert forall|i: int, j: int| 0 <= i < j < v1.len() implies crate::text::lex_le((#[trigger] v1[i])@, (#[trigger] v1[j])@) by {
            if j < p {
                assert(v1[i] == v0[i] && v1[j] == v0[j]);
            } else if j == p {
                assert(v1[i] == v0[i]);
            } else if i == p {
                assert(v1[j] == v0[j - 1]);
                if j - 1 > p {
                    assert(crate::text::lex_le(v0[p as int]@, v0[j - 1]@));
                    crate::text::lemma_lex_trans(xv, v0[p as int]@, v0[j - 1]@);
                }
            } else if i < p {
                assert(v1[i] == v0[i] && v1[j] == v0[j - 1]);
            } else {
                assert(v1[i] == v0[i - 1] && v1[j] == v0[j - 1]);
            }
        }
        assert forall|s: Seq<char>| #![trigger holds(v1, s)] holds(v1, s) <==> (holds(v0, s) || s == xv) by {
            if holds(v1, s) {
                let k = choose|k: int| 0 <= k < v1.len() && (#[trigger] v1[k])@ == s;
                if k < p {
                    assert(v1[k] == v0[k]);
                } else if k > p {
                    assert(v1[k] == v0[k - 1]);
                }
            }
            if holds(v0, s) {
                let k = choose|k: int| 0 <= k < v0.len() && (#[trigger] v0[k])@ == s;
                if k < p {
                    assert(v1[k] == v0[k]);
                } else {
                    assert(v1[k + 1] == v0[k]);
                }
            }
            if s == xv {
                assert(v1[p as int]@ == s);
            }
        }
    }
}

/// The mods added by hand to put aside: the regular files of `mods/`
/// (`listing`) that are mods the pack did not install (see
/// `set_aside_among`), in the order of `str`.
pub fn unknown_mods(listing: &Vec<(String, bool)>, cached: &Vec<CachedFile>) -> (r: Vec<String>)
    ensures
        sorted_texts(r@),
        forall|n: Seq<char>| #![trigger holds(r@, n)]
            holds(r@, n) <==> goes_aside(listing@, spec_known_mods(spec_locations(cached@)), n),
{
    let mut locs: Vec<String> = Vec::new();
    let mut i: usize = 0;
    while i < cached.len()
        invariant
            i <= cached@.len(),
            locs@.len() == spec_locations(cached@.take(i as int)).len(),
            forall|k: int| 0 <= k < locs@.len() ==> (#[trigger] locs@[k])@ == spec_locations(cached@.take(i as int))[k]@,
        decreases cached.len() - i,
    {
        let ghost t = cached@.take(i + 1);
        assert(t.drop_last() =~= cached@.take(i as int));
        assert(t.last() == cached@[i as int]);
        match &cached[i].location {
            Some(l) => {
                locs.push(l.clone());
            },
            None => {},
        }
        i = i + 1;
    }
    assert(cached@.take(cached@.len() as int) =~= cached@);
    proof {
        lemma_known_mods_by_view(locs@, spec_locations(cached@));
    }
    let known = known_mods(&locs);
    let ghost kn = spec_known_mods(spec_locations(cached@));
    assert(Seq::new(known@.len(), |k: int| known@[k]@) == kn);
    let mut r: Vec<String> = Vec::new();
    let mut j: usize = 0;
    while j < listing.len()
        invariant
            j <= listing@.len(),
            kn == Seq::new(known@.len(), |k: int| known@[k]@),
            sorted_texts(r@),
            forall|n: Seq<char>| #![trigger holds(r@, n)] holds(r@, n) <==> goes_aside(listing@.take(j as int), kn, n),
        decreases listing.len() - j,
    {
        let ghost t = listing@.take(j + 1);
        let name = &listing[j].0;
        let go = should_set_aside(name.as_str(), listing[j].1, &known);
        proof {
            assert(holds(known@, name@) <==> kn.contains(name@)) by {
                if holds(known@, name@) {
                    let k = choose|k: int| 0 <= k < known@.len() && (#[trigger] known@[k])@ == name@;
                    assert(kn[k] == name@);
                }
                if kn.contains(name@) {
                    let k = choose|k: int| 0 <= k < kn.len() && kn[k] == name@;
                    assert(known@[k]@ == name@);
                }
            }
            assert(go == set_aside_among(name@, listing@[j as int].1, kn));
        }
        let ghost r0 = r@;
        if go {
            insert_sorted(&mut r, name.clone());
        }
        proof {
            assert forall|n: Seq<char>| #![trigger holds(r@, n)] holds(r@, n) <==> goes_aside(t, kn, n) by {
                if goes_aside(t, kn, n) {
                    let k = choose|k: int| 0 <= k < t.len() && (#[trigger] t[k]).0@ == n && set_aside_among(n, t[k].1, kn);
                    if k < j {
                        assert(listing@.take(j as int)[k] == t[k]);
                        assert(goes_aside(listing@.take(j as int), kn, n));
                    }
                }
                if goes_aside(listing@.take(j as int), kn, n) {
                    let k = choose|k: int| 0 <= k < j && (#[trigger] listing@.take(j as int)[k]).0@ == n
                        && set_aside_among(n, listing@.take(j as int)[k].1, kn);
                    assert(t[k] == listing@.take(j as int)[k]);
                }
                if go && n == name@ {
                    assert(t[j as int] == listing@[j as int]);
                }
                if holds(r@, n) && !holds(r0, n) {
                    assert(t[j as int] == listing@[j as int]);
                }
            }
        }
        j = j + 1;
    }
    assert(listing@.take(listing@.len() as int) =~= listing@);
    r
}


// ─── pack.toml ──────────────────────────────────────────────────────────────

/// The `[versions]` table of pack.toml: the versions of Minecraft and
/// NeoForge the pack asks for.
#[derive(Clone, Debug)]
pub struct PackVersions {
    pub minecraft: Option<String>,
    pub neoforge: Option<String>,
}

/// What pack.toml lacks.
#[derive(Clone, Copy, Debug, PartialEq, Eq)]
pub enum PackError {
    NoVersions,
    NoMinecraft,
    NoNeoforge,
}

impl PackError {
    /// The message shown.
    pub fn message(&self) -> (r: &'static str)
        ensures
            r@ == match *self {
                PackError::NoVersions => "pack.toml sans [versions]"@,
                PackError::NoMinecraft => "version de Minecraft absente de pack.toml"@,
                PackError::NoNeoforge => "version de NeoForge absente de pack.toml"@,
            },
    {
        match self {
            PackError::NoVersions => "pack.toml sans [versions]",
            PackError::NoMinecraft => "version de Minecraft absente de pack.toml",
            PackError::NoNeoforge => "version de NeoForge absente de pack.toml",
        }
    }
}

/// The versions of Minecraft and NeoForge the pack asks for; an error when
/// pack.toml has no `[versions]`, or it lacks one of them (Minecraft first).
pub fn pack_versions_of(versions: Option<PackVersions>) -> (r: Result<(String, String), PackError>)
    ensures
        match versions {
            None => r == Err::<(String, String), PackError>(PackError::NoVersions),
            Some(v) => match (v.minecraft, v.neoforge) {
                (Some(m), Some(n)) => r == Ok::<(String, String), PackError>((m, n)),
                (None, _) => r == Err::<(String, String), PackError>(PackError::NoMinecraft),
                (Some(_), None) => r == Err::<(String, String), PackError>(PackError::NoNeoforge),
            },
        },
{
    match versions {
        None => Err(PackError::NoVersions),
        Some(v) => match v.minecraft {
            None => Err(PackError::NoMinecraft),
            Some(m) => match v.neoforge {
                None => Err(PackError::NoNeoforge),
                Some(n) => Ok((m, n)),
            },
        },
    }
}

} // verus!
