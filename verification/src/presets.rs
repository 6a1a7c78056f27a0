//! Quality presets: `turicraft/presets.toml`, served with the pack and read
//! again at each launch. What depends on the machine's measures in
//! gigabytes (detection, memory, garbage collector) is done outside the
//! library; here is how the player's choices, the preset and the automatic
//! adjustments make the settings, and how files are edited.

use vstd::prelude::*;

use crate::packwiz::{all_digits, digits_value, parse_u64, parse_u64_in};
use crate::minecraft::{dedup_strings, string_seen};
use crate::text::{spec_lines, signed_decimal, spec_signed_decimal, str_eq, to_chars, sub_vec, trim_chars, spec_trim, starts_with, starts_with_str};

verus! {

// ─── Maps as lists of pairs ─────────────────────────────────────────────────

/// The contents of a list of pairs keyed by strings.
pub open spec fn pairs_view<V>(v: Seq<(String, V)>) -> Seq<(Seq<char>, V)> {
    Seq::new(v.len(), |i: int| (v[i].0@, v[i].1))
}

/// The map a list of pairs stands for: a later pair replaces an earlier one
/// with the same key (as when collected into a map).
pub open spec fn key_map<V>(s: Seq<(Seq<char>, V)>) -> Map<Seq<char>, V>
    decreases s.len(),
{
    if s.len() == 0 {
        Map::empty()
    } else {
        key_map(s.drop_last()).insert(s.last().0, s.last().1)
    }
}

/// The value of the last pair with key `k`.
pub open spec fn lookup<V>(s: Seq<(Seq<char>, V)>, k: Seq<char>) -> Option<V>
    decreases s.len(),
{
    if s.len() == 0 {
        None
    } else if s.last().0 == k {
        Some(s.last().1)
    } else {
        lookup(s.drop_last(), k)
    }
}

pub proof fn lemma_lookup_key_map<V>(s: Seq<(Seq<char>, V)>, k: Seq<char>)
    ensures
        lookup(s, k) matches Some(v) ==> key_map(s).contains_key(k) && key_map(s)[k] == v,
        lookup(s, k) is None ==> !key_map(s).contains_key(k),
    decreases s.len(),
{
    if s.len() > 0 {
        lemma_lookup_key_map(s.drop_last(), k);
    }
}

/// Index of the last pair of `v` with key `k`.
pub fn find_key<V>(v: &Vec<(String, V)>, k: &str) -> (r: Option<usize>)
    ensures
        match lookup(pairs_view(v@), k@) {
            None => r is None,
            Some(x) => (r matches Some(i) && i < v@.len() && v@[i as int].1 == x && v@[i as int].0@ == k@),
        },
{
    let ghost full = pairs_view(v@);
    let mut i = v.len();
    assert(full.take(i as int) =~= full);
    while i > 0
        invariant
            i <= v@.len(),
            full == pairs_view(v@),
            lookup(full, k@) == lookup(full.take(i as int), k@),
        decreases i,
    {
        let ghost t = full.take(i as int);
        assert(t.last() == full[i - 1]);
        if str_eq(v[i - 1].0.as_str(), k) {
            return Some(i - 1);
        }
        assert(t.drop_last() =~= full.take(i - 1));
        i = i - 1;
    }
    None
}

proof fn lemma_pairs_push<V>(v: Seq<(String, V)>, p: (String, V))
    ensures
        pairs_view(v.push(p)) == pairs_view(v).push((p.0@, p.1)),
{
    assert(pairs_view(v.push(p)) =~= pairs_view(v).push((p.0@, p.1)));
}

// ─── Values of the presets file ─────────────────────────────────────────────

/// A value of the presets file given to a slider by a rule: a number, or a
/// name (`interface`, `ecran`, `ecran-3`...).
#[derive(Clone, Debug)]
pub enum SliderValue {
    Integer(i64),
    Text(String),
    Other,
}

/// `str::parse::<i64>`: an optional sign, then at least one digit, and a
/// value that fits.
pub open spec fn parse_i64(s: Seq<char>) -> Option<i64> {
    let neg = s.len() > 0 && s[0] == '-';
    let d = if s.len() > 0 && (s[0] == '+' || s[0] == '-') { s.drop_first() } else { s };
    if d.len() > 0 && all_digits(d) && (if neg { digits_value(d) <= 0x8000_0000_0000_0000 } else { digits_value(d) <= 0x7fff_ffff_ffff_ffff }) {
        Some(if neg { (0 - digits_value(d)) as i64 } else { digits_value(d) as i64 })
    } else {
        None
    }
}

/// `s` parsed as an `i64` (see `parse_i64`).
pub fn parse_i64_of(s: &Vec<char>) -> (r: Option<i64>)
    ensures
        r == parse_i64(s@),
{
    let n = s.len();
    let neg = n > 0 && s[0] == '-';
    let start: usize = if n > 0 && (s[0] == '+' || s[0] == '-') { 1 } else { 0 };
    let ghost d = if s@.len() > 0 && (s@[0] == '+' || s@[0] == '-') { s@.drop_first() } else { s@ };
    assert(d == s@.subrange(start as int, n as int));
    if start == n {
        return None;
    }
    let v = sub_vec(s, start, n);
    assert(v@ == d);
    assert(v@.subrange(0, v@.len() as int) =~= v@);
    if v[0] == '+' {
        assert(!all_digits(d));
        return None;
    }
    assert(v@.len() > 0 && v@[0] != '+');
    let u = parse_u64_in(&v, 0, v.len());
    assert(u == parse_u64(d));
    match u {
        None => None,
        Some(x) => {
            if neg {
                if x <= 0x8000_0000_0000_0000 {
                    if x == 0x8000_0000_0000_0000 {
                        Some(i64::MIN)
                    } else {
                        Some(0 - (x as i64))
                    }
                } else {
                    None
                }
            } else if x <= 0x7fff_ffff_ffff_ffff {
                Some(x as i64)
            } else {
                None
            }
        },
    }
}

/// `s` without the `c`s at its start.
pub open spec fn trim_start_char(s: Seq<char>, c: char) -> Seq<char>
    decreases s.len(),
{
    if s.len() > 0 && s[0] == c {
        trim_start_char(s.drop_first(), c)
    } else {
        s
    }
}

/// `s` without the `c`s at its end.
pub open spec fn trim_end_char(s: Seq<char>, c: char) -> Seq<char>
    decreases s.len(),
{
    if s.len() > 0 && s.last() == c {
        trim_end_char(s.drop_last(), c)
    } else {
        s
    }
}

/// `v[from..to]` without `c`s at its start: where what is left begins.
fn skip_char(v: &Vec<char>, from: usize, to: usize, c: char) -> (i: usize)
    requires
        from <= to <= v@.len(),
    ensures
        from <= i <= to,
        i < to ==> v@[i as int] != c,
        trim_start_char(v@.subrange(from as int, to as int), c) == v@.subrange(i as int, to as int),
{
    let mut i = from;
    while i < to && v[i] == c
        invariant
            from <= i <= to <= v@.len(),
            trim_start_char(v@.subrange(from as int, to as int), c) == trim_start_char(v@.subrange(i as int, to as int), c),
        decreases to - i,
    {
        assert(v@.subrange(i as int, to as int).drop_first() =~= v@.subrange(i + 1, to as int));
        i = i + 1;
    }
    i
}

/// `v[from..to]` without `c`s at its end: where what is left ends.
fn drop_char_end(v: &Vec<char>, from: usize, to: usize, c: char) -> (e: usize)
    requires
        from <= to <= v@.len(),
    ensures
        from <= e <= to,
        trim_end_char(v@.subrange(from as int, to as int), c) == v@.subrange(from as int, e as int),
{
    let mut e = to;
    while e > from && v[e - 1] == c
        invariant
            from <= e <= to <= v@.len(),
            trim_end_char(v@.subrange(from as int, to as int), c) == trim_end_char(v@.subrange(from as int, e as int), c),
        decreases e,
    {
        assert(v@.subrange(from as int, e as int).drop_last() =~= v@.subrange(from as int, e - 1));
        e = e - 1;
    }
    e
}

/// The value a rule gives a slider on this screen: a number as it is;
/// `interface`, the interface scale for the screen's height (height / 480,
/// rounded, between 2 and 6); `ecran` or `ecran-n`, the screen's refresh
/// rate (minus n; Minecraft caps at 250 frames per second, beyond which
/// 260 means unlimited). Nothing when what it needs is unknown.
pub open spec fn spec_adapt_value(v: SliderValue, refresh_hz: Option<u32>, height_px: Option<u32>) -> Option<i64> {
    match v {
        SliderValue::Integer(i) => Some(i),
        SliderValue::Text(s) => if s@ == "interface"@ {
            match height_px {
                Some(h) => {
                    let q = (h + 240) / 480;
                    Some(if q < 2 { 2 } else if q > 6 { 6 } else { q as i64 })
                },
                None => None,
            }
        } else {
            match refresh_hz {
                None => None,
                Some(hz) => if starts_with(s@, "ecran"@) {
                    let rest = trim_start_char(spec_trim(s@.subrange(5, s@.len() as int)), '-');
                    let minus: int = match parse_i64(rest) {
                        Some(m) => m as int,
                        None => 0,
                    };
                    let v = hz - minus;
                    Some(if v >= 250 { 260 } else { v as i64 })
                } else {
                    None
                },
            }
        },
        SliderValue::Other => None,
    }
}

pub fn adapt_value(v: &SliderValue, refresh_hz: Option<u32>, height_px: Option<u32>) -> (r: Option<i64>)
    ensures
        r == spec_adapt_value(*v, refresh_hz, height_px),
{
    match v {
        SliderValue::Integer(i) => Some(*i),
        SliderValue::Text(s) => {
            if str_eq(s.as_str(), "interface") {
                match height_px {
                    Some(h) => {
                        let q = (h as u64 + 240) / 480;
                        Some(if q < 2 { 2 } else if q > 6 { 6 } else { q as i64 })
                    },
                    None => None,
                }
            } else {
                let hz = match refresh_hz {
                    Some(hz) => hz,
                    None => return None,
                };
                if !starts_with_str(s.as_str(), "ecran") {
                    return None;
                }
                proof {
                    reveal_strlit("ecran");
                }
                let chars = to_chars(s.as_str());
                let tail = sub_vec(&chars, 5, chars.len());
                let trimmed = trim_chars(&tail);
                let tv = to_chars(trimmed.as_str());
                let a = skip_char(&tv, 0, tv.len(), '-');
                assert(tv@.subrange(0, tv@.len() as int) =~= tv@);
                let rest = sub_vec(&tv, a, tv.len());
                let minus: i64 = match parse_i64_of(&rest) {
                    Some(m) => m,
                    None => 0,
                };
                proof {
                    if parse_i64(rest@) is Some {
                        assert(rest@.len() > 0);
                        assert(rest@[0] == tv@[a as int]);
                    }
                }
                let v = hz as i64 - minus;
                Some(if v >= 250 { 260 } else { v })
            }
        },
        SliderValue::Other => None,
    }
}

// ─── The presets file ───────────────────────────────────────────────────────

/// A slider of the Simple mode (view distance...): it writes either a line
/// of options.txt (`option`), or a key of a file (`file`, `key`).
#[derive(Clone, Debug)]
pub struct Slider {
    pub label: String,
    pub description: String,
    pub min: i64,
    pub max: i64,
    pub step: i64,
    pub unit: String,
    /// Value when neither the preset nor a rule gives one (else `min`).
    pub default: Option<i64>,
    pub option: Option<String>,
    pub file: Option<String>,
    pub format: Option<String>,
    pub key: Option<String>,
    /// Greyed out and ignored when this game option is off.
    pub requires: Option<String>,
}

/// Name and description of a group of optional mods.
#[derive(Clone, Debug)]
pub struct GroupInfo {
    pub label: String,
    pub description: String,
}

/// A value a preset writes in a file (only integers are read back here).
#[derive(Clone, Debug)]
pub enum SetValue {
    Integer(i64),
    Other,
}

/// What resolving reads of a preset.
#[derive(Clone, Debug)]
pub struct PresetSettings {
    pub groups: Vec<String>,
    /// Value of the game options for this preset.
    pub toggles: Vec<(String, bool)>,
    /// Lines of options.txt.
    pub options: Vec<(String, String)>,
    /// Files edited: path, then the keys set.
    pub files: Vec<(String, Vec<(String, SetValue)>)>,
    /// Resource packs of the preset.
    pub resource_packs: Vec<String>,
}

/// What a game option writes when it is off.
#[derive(Clone, Debug)]
pub struct ToggleOff {
    /// Paths of the files it edits.
    pub files: Vec<String>,
    /// Lines of options.txt.
    pub options: Vec<(String, String)>,
}

/// A game option (Simple mode): what it writes when on, and in `off` when
/// it is not.
#[derive(Clone, Debug)]
pub struct ToggleSettings {
    pub default: bool,
    /// Optional mod groups added (on) or removed (off).
    pub groups: Vec<String>,
    /// Lines of options.txt when on.
    pub options: Vec<(String, String)>,
    /// Paths of the files it edits when on.
    pub files: Vec<String>,
    pub off: Option<ToggleOff>,
}

/// An automatic adjustment: when the machine meets its condition (and the
/// preset is one of `presets`, if given), its values become the advised
/// ones. The player's choice still wins.
#[derive(Clone, Debug)]
pub struct AdaptRule {
    pub note: String,
    pub presets: Option<Vec<String>>,
    pub toggles: Vec<(String, bool)>,
    pub sliders: Vec<(String, SliderValue)>,
    /// Paths of the files it edits.
    pub files: Vec<String>,
}

/// What resolving reads of the presets file.
#[derive(Clone, Debug)]
pub struct PresetsModel {
    pub toggles: Vec<(String, ToggleSettings)>,
    pub sliders: Vec<(String, Slider)>,
    pub presets: Vec<(String, PresetSettings)>,
    pub adapt: Vec<AdaptRule>,
}

/// What the player chose.
#[derive(Clone, Debug)]
pub struct Choices {
    /// `auto`, a preset's name, or `personnalise` (Advanced mode).
    pub preset: String,
    pub custom_base: Option<String>,
    pub toggles: Vec<(String, bool)>,
    pub mods: Vec<(String, bool)>,
    pub sliders: Vec<(String, i64)>,
}

/// The player's choices resolved into a concrete preset.
#[derive(Clone, Debug)]
pub struct Resolution {
    pub preset: String,
    pub groups: Vec<String>,
    pub toggles: Vec<(String, bool)>,
    pub sliders: Vec<(String, i64)>,
    /// What the automatic adjustments changed: id -> reason.
    pub adapted: Vec<(String, String)>,
    /// Files written by the automatic adjustments: path -> the rule (its
    /// index) whose edit applies.
    pub adapt_files: Vec<(String, usize)>,
}

/// `s` without its `"` at both ends (`str::trim_matches('"')`).
pub open spec fn trim_quotes(s: Seq<char>) -> Seq<char> {
    trim_end_char(trim_start_char(s, '"'), '"')
}

/// The value a preset writes for a slider: from its line of options.txt,
/// or from its key in its file.
pub open spec fn spec_preset_value(sl: Slider, p: PresetSettings) -> Option<i64> {
    match sl.option {
        Some(o) => match lookup(pairs_view(p.options@), o@) {
            Some(s) => parse_i64(trim_quotes(s@)),
            None => None,
        },
        None => match sl.file {
            None => None,
            Some(f) => match lookup(pairs_view(p.files@), f@) {
                None => None,
                Some(set) => match sl.key {
                    None => None,
                    Some(k) => match lookup(pairs_view(set@), k@) {
                        Some(SetValue::Integer(i)) => Some(i),
                        _ => None,
                    },
                },
            },
        },
    }
}

impl Slider {
    /// The value the preset writes for this slider.
    pub fn preset_value(&self, p: &PresetSettings) -> (r: Option<i64>)
        ensures
            r == spec_preset_value(*self, *p),
    {
        match &self.option {
            Some(o) => {
                match find_key(&p.options, o.as_str()) {
                    Some(i) => {
                        let v = to_chars(p.options[i].1.as_str());
                        let a = skip_char(&v, 0, v.len(), '"');
                        let e = drop_char_end(&v, a, v.len(), '"');
                        assert(v@.subrange(0, v@.len() as int) =~= v@);
                        let inner = sub_vec(&v, a, e);
                        parse_i64_of(&inner)
                    },
                    None => None,
                }
            },
            None => {
                let f = match &self.file {
                    Some(f) => f,
                    None => return None,
                };
                let fi = match find_key(&p.files, f.as_str()) {
                    Some(fi) => fi,
                    None => return None,
                };
                let k = match &self.key {
                    Some(k) => k,
                    None => return None,
                };
                match find_key(&p.files[fi].1, k.as_str()) {
                    Some(j) => match p.files[fi].1[j].1 {
                        SetValue::Integer(i) => Some(i),
                        SetValue::Other => None,
                    },
                    None => None,
                }
            },
        }
    }
}

// ─── Resolving the player's choices ─────────────────────────────────────────

/// The preset the choices start from: the detected one for `auto` (or an
/// unknown name), the custom base (else the detected one) for
/// `personnalise`, otherwise the one chosen.
pub open spec fn spec_base(c: Choices, detected: Seq<char>, m: PresetsModel) -> Seq<char> {
    let p = c.preset@;
    if p == "auto"@ || p == "personnalise"@ || p.len() == 0 {
        if p == "personnalise"@ {
            match c.custom_base {
                Some(b) => b@,
                None => detected,
            }
        } else {
            detected
        }
    } else if lookup(pairs_view(m.presets@), p) is Some {
        p
    } else {
        detected
    }
}

/// A rule applies: the machine meets its condition (`holds`), and the
/// preset is among those it names, if it names any.
pub open spec fn rule_applies(rule: AdaptRule, base: Seq<char>, holds: bool) -> bool {
    holds && match rule.presets {
        Some(ps) => crate::packwiz::holds(ps@, base),
        None => true,
    }
}

/// The value a rule gives a slider: that of its last entry for the slider
/// that means something on this screen.
pub open spec fn rule_slider(rs: Seq<(String, SliderValue)>, k: Seq<char>, hz: Option<u32>, h: Option<u32>) -> Option<i64>
    decreases rs.len(),
{
    if rs.len() == 0 {
        None
    } else if rs.last().0@ == k && spec_adapt_value(rs.last().1, hz, h) is Some {
        spec_adapt_value(rs.last().1, hz, h)
    } else {
        rule_slider(rs.drop_last(), k, hz, h)
    }
}

/// The advised value of game option `k` after the first `j` rules: that of
/// the last applying rule that sets it, else the preset's, else the
/// option's default; `None` for an unknown option.
pub open spec fn adv_toggle(m: PresetsModel, p: PresetSettings, base: Seq<char>, holds: Seq<bool>, k: Seq<char>, j: int) -> Option<bool>
    decreases j,
{
    if j <= 0 {
        match lookup(pairs_view(m.toggles@), k) {
            Some(t) => Some(match lookup(pairs_view(p.toggles@), k) {
                Some(v) => v,
                None => t.default,
            }),
            None => None,
        }
    } else if rule_applies(m.adapt@[j - 1], base, holds[j - 1]) && lookup(pairs_view(m.adapt@[j - 1].toggles@), k) is Some {
        lookup(pairs_view(m.adapt@[j - 1].toggles@), k)
    } else {
        adv_toggle(m, p, base, holds, k, j - 1)
    }
}

/// The advised value of slider `k` after the first `j` rules: that of the
/// last applying rule that sets it, else the preset's, else the slider's
/// default, else its minimum.
pub open spec fn adv_slider(m: PresetsModel, p: PresetSettings, base: Seq<char>, holds: Seq<bool>, hz: Option<u32>, h: Option<u32>, k: Seq<char>, j: int) -> Option<i64>
    decreases j,
{
    if j <= 0 {
        match lookup(pairs_view(m.sliders@), k) {
            Some(sl) => Some(match spec_preset_value(sl, p) {
                Some(v) => v,
                None => match sl.default {
                    Some(d) => d,
                    None => sl.min,
                },
            }),
            None => None,
        }
    } else if rule_applies(m.adapt@[j - 1], base, holds[j - 1]) && rule_slider(m.adapt@[j - 1].sliders@, k, hz, h) is Some {
        rule_slider(m.adapt@[j - 1].sliders@, k, hz, h)
    } else {
        adv_slider(m, p, base, holds, hz, h, k, j - 1)
    }
}

/// Why setting `k` was adjusted, after the first `j` rules: the note of the
/// last applying rule that set it.
pub open spec fn adapt_note(m: PresetsModel, base: Seq<char>, holds: Seq<bool>, hz: Option<u32>, h: Option<u32>, k: Seq<char>, j: int) -> Option<Seq<char>>
    decreases j,
{
    if j <= 0 {
        None
    } else if rule_applies(m.adapt@[j - 1], base, holds[j - 1]) && (lookup(pairs_view(m.adapt@[j - 1].toggles@), k) is Some
        || rule_slider(m.adapt@[j - 1].sliders@, k, hz, h) is Some) {
        Some(m.adapt@[j - 1].note@)
    } else {
        adapt_note(m, base, holds, hz, h, k, j - 1)
    }
}

/// Which rule's edit of file `k` applies, after the first `j` rules: the
/// last applying rule that edits it.
pub open spec fn adapt_file(m: PresetsModel, base: Seq<char>, holds: Seq<bool>, k: Seq<char>, j: int) -> Option<usize>
    decreases j,
{
    if j <= 0 {
        None
    } else if rule_applies(m.adapt@[j - 1], base, holds[j - 1]) && crate::packwiz::holds(m.adapt@[j - 1].files@, k) {
        Some((j - 1) as usize)
    } else {
        adapt_file(m, base, holds, k, j - 1)
    }
}

/// `gs` without `g`.
pub open spec fn without(gs: Seq<Seq<char>>, g: Seq<char>) -> Seq<Seq<char>>
    decreases gs.len(),
{
    if gs.len() == 0 {
        Seq::empty()
    } else if gs.last() == g {
        without(gs.drop_last(), g)
    } else {
        without(gs.drop_last(), g).push(gs.last())
    }
}

/// Group `g` removed, then added at the end when `on`.
pub open spec fn set_group(gs: Seq<Seq<char>>, g: Seq<char>, on: bool) -> Seq<Seq<char>> {
    if on {
        without(gs, g).push(g)
    } else {
        without(gs, g)
    }
}

/// Each group of `groups`, in turn, set to `on`.
pub open spec fn set_groups(gs: Seq<Seq<char>>, groups: Seq<String>, on: bool) -> Seq<Seq<char>>
    decreases groups.len(),
{
    if groups.len() == 0 {
        gs
    } else {
        set_group(set_groups(gs, groups.drop_last(), on), groups.last()@, on)
    }
}

/// Each game option, in turn, sets its groups to its value.
pub open spec fn toggle_groups(gs: Seq<Seq<char>>, toggles: Seq<(String, ToggleSettings)>, value: spec_fn(Seq<char>) -> bool) -> Seq<Seq<char>>
    decreases toggles.len(),
{
    if toggles.len() == 0 {
        gs
    } else {
        set_groups(toggle_groups(gs, toggles.drop_last(), value), toggles.last().1.groups@, value(toggles.last().0@))
    }
}

/// Each mod chosen one by one, in turn, set on or off.
pub open spec fn mod_groups(gs: Seq<Seq<char>>, mods: Seq<(String, bool)>) -> Seq<Seq<char>>
    decreases mods.len(),
{
    if mods.len() == 0 {
        gs
    } else {
        set_group(mod_groups(gs, mods.drop_last()), mods.last().0@, mods.last().1)
    }
}

/// The contents of a list of strings.
pub open spec fn names_view(v: Seq<String>) -> Seq<Seq<char>> {
    Seq::new(v.len(), |i: int| v[i]@)
}

/// The contents of a list of string pairs.
pub open spec fn texts_view(v: Seq<(String, String)>) -> Seq<(Seq<char>, Seq<char>)> {
    Seq::new(v.len(), |i: int| (v[i].0@, v[i].1@))
}

/// The value of game option `k`: the player's, else the advised one.
pub open spec fn final_toggle(m: PresetsModel, p: PresetSettings, base: Seq<char>, holds: Seq<bool>, c: Choices, k: Seq<char>) -> Option<bool> {
    match adv_toggle(m, p, base, holds, k, m.adapt@.len() as int) {
        Some(v) => Some(match lookup(pairs_view(c.toggles@), k) {
            Some(u) => u,
            None => v,
        }),
        None => None,
    }
}

/// `v` within `[lo, hi]`.
pub open spec fn clamp(v: i64, lo: i64, hi: i64) -> i64 {
    if v < lo {
        lo
    } else if v > hi {
        hi
    } else {
        v
    }
}

/// The value of slider `k`: the player's, else the advised one, within its
/// bounds.
pub open spec fn final_slider(m: PresetsModel, p: PresetSettings, base: Seq<char>, holds: Seq<bool>, hz: Option<u32>, h: Option<u32>, c: Choices, k: Seq<char>) -> Option<i64> {
    match lookup(pairs_view(m.sliders@), k) {
        Some(sl) => Some(clamp(
            match lookup(pairs_view(c.sliders@), k) {
                Some(u) => u,
                None => adv_slider(m, p, base, holds, hz, h, k, m.adapt@.len() as int)->0,
            },
            sl.min,
            sl.max,
        )),
        None => None,
    }
}

/// The optional mod groups: the preset's, then each game option's groups
/// set to its value, then each mod chosen one by one.
pub open spec fn spec_groups(m: PresetsModel, p: PresetSettings, base: Seq<char>, holds: Seq<bool>, c: Choices) -> Seq<Seq<char>> {
    mod_groups(
        toggle_groups(names_view(p.groups@), m.toggles@, |k: Seq<char>| final_toggle(m, p, base, holds, c, k) == Some(true)),
        c.mods@,
    )
}

/// Sliders whose bounds make sense.
pub open spec fn sliders_well_formed(m: PresetsModel) -> bool {
    forall|i: int| 0 <= i < m.sliders@.len() ==> (#[trigger] m.sliders@[i]).1.min <= m.sliders@[i].1.max
}

fn base_of(c: &Choices, detected: &str, m: &PresetsModel) -> (r: String)
    ensures
        r@ == spec_base(*c, detected@, *m),
{
    let p = c.preset.as_str();
    let empty = p.unicode_len() == 0;
    if str_eq(p, "auto") || str_eq(p, "personnalise") || empty {
        if str_eq(p, "personnalise") {
            match &c.custom_base {
                Some(b) => b.clone(),
                None => detected.to_owned(),
            }
        } else {
            detected.to_owned()
        }
    } else if find_key(&m.presets, p).is_some() {
        p.to_owned()
    } else {
        detected.to_owned()
    }
}

fn names_hold(names: &Vec<String>, s: &str) -> (r: bool)
    ensures
        r == crate::packwiz::holds(names@, s@),
{
    let mut i: usize = 0;
    while i < names.len()
        invariant
            i <= names@.len(),
            forall|j: int| 0 <= j < i ==> (#[trigger] names@[j])@ != s@,
        decreases names.len() - i,
    {
        if str_eq(names[i].as_str(), s) {
            return true;
        }
        i = i + 1;
    }
    false
}

/// `gs` without `g`, in place.
fn remove_group(gs: &mut Vec<String>, g: &str)
    ensures
        names_view(final(gs)@) == without(names_view(old(gs)@), g@),
{
    let mut kept: Vec<String> = Vec::new();
    let mut i: usize = 0;
    while i < gs.len()
        invariant
            i <= gs@.len(),
            gs@ == old(gs)@,
            names_view(kept@) == without(names_view(gs@).take(i as int), g@),
        decreases gs.len() - i,
    {
        let ghost t = names_view(gs@).take(i + 1);
        assert(t.drop_last() =~= names_view(gs@).take(i as int));
        assert(t.last() == gs@[i as int]@);
        if !str_eq(gs[i].as_str(), g) {
            let x = gs[i].clone();
            let ghost before = kept@;
            kept.push(x);
            assert(names_view(kept@) =~= names_view(before).push(x@));
        }
        i = i + 1;
    }
    assert(names_view(gs@).take(gs@.len() as int) =~= names_view(gs@));
    *gs = kept;
}

/// Group `g` set to `on`, in place.
fn set_group_in(gs: &mut Vec<String>, g: &str, on: bool)
    ensures
        names_view(final(gs)@) == set_group(names_view(old(gs)@), g@, on),
{
    remove_group(gs, g);
    if on {
        let ghost before = gs@;
        gs.push(g.to_owned());
        assert(names_view(gs@) =~= names_view(before).push(g@));
    }
}

proof fn lemma_lookup_push<V>(s: Seq<(Seq<char>, V)>, p: (Seq<char>, V), k: Seq<char>)
    ensures
        lookup(s.push(p), k) == if p.0 == k { Some(p.1) } else { lookup(s, k) },
{
    assert(s.push(p).drop_last() =~= s);
}

proof fn lemma_pairs_take<V>(v: Seq<(String, V)>, i: int)
    requires
        0 <= i < v.len(),
    ensures
        pairs_view(v.take(i + 1)) == pairs_view(v.take(i)).push((v[i].0@, v[i].1)),
{
    assert(pairs_view(v.take(i + 1)) =~= pairs_view(v.take(i)).push((v[i].0@, v[i].1)));
}

proof fn lemma_texts_push(v: Seq<(String, String)>, p: (String, String))
    ensures
        texts_view(v.push(p)) == texts_view(v).push((p.0@, p.1@)),
{
    assert(texts_view(v.push(p)) =~= texts_view(v).push((p.0@, p.1@)));
}

/// The advised game options before any rule.
fn base_toggles(m: &PresetsModel, p: &PresetSettings) -> (r: Vec<(String, bool)>)
    ensures
        forall|k: Seq<char>| #![trigger lookup(pairs_view(r@), k)]
            lookup(pairs_view(r@), k) == match lookup(pairs_view(m.toggles@), k) {
                Some(t) => Some(match lookup(pairs_view(p.toggles@), k) {
                    Some(v) => v,
                    None => t.default,
                }),
                None => None,
            },
{
    let mut r: Vec<(String, bool)> = Vec::new();
    let mut i: usize = 0;
    while i < m.toggles.len()
        invariant
            i <= m.toggles@.len(),
            forall|k: Seq<char>| #![trigger lookup(pairs_view(r@), k)]
                lookup(pairs_view(r@), k) == match lookup(pairs_view(m.toggles@.take(i as int)), k) {
                    Some(t) => Some(match lookup(pairs_view(p.toggles@), k) {
                        Some(v) => v,
                        None => t.default,
                    }),
                    None => None,
                },
        decreases m.toggles.len() - i,
    {
        let id = &m.toggles[i].0;
        let v = match find_key(&p.toggles, id.as_str()) {
            Some(j) => p.toggles[j].1,
            None => m.toggles[i].1.default,
        };
        let ghost before = r@;
        let x = (id.clone(), v);
        r.push(x);
        proof {
            lemma_pairs_push(before, x);
            lemma_pairs_take(m.toggles@, i as int);
            assert forall|k: Seq<char>| #![trigger lookup(pairs_view(r@), k)]
                lookup(pairs_view(r@), k) == match lookup(pairs_view(m.toggles@.take(i + 1)), k) {
                    Some(t) => Some(match lookup(pairs_view(p.toggles@), k) {
                        Some(v) => v,
                        None => t.default,
                    }),
                    None => None,
                } by {
                lemma_lookup_push(pairs_view(before), (x.0@, x.1), k);
                lemma_lookup_push(pairs_view(m.toggles@.take(i as int)), (m.toggles@[i as int].0@, m.toggles@[i as int].1), k);
            }
        }
        i = i + 1;
    }
    assert(m.toggles@.take(m.toggles@.len() as int) =~= m.toggles@);
    r
}

/// The advised sliders before any rule.
fn base_sliders(m: &PresetsModel, p: &PresetSettings) -> (r: Vec<(String, i64)>)
    ensures
        forall|k: Seq<char>| #![trigger lookup(pairs_view(r@), k)]
            lookup(pairs_view(r@), k) == match lookup(pairs_view(m.sliders@), k) {
                Some(sl) => Some(match spec_preset_value(sl, *p) {
                    Some(v) => v,
                    None => match sl.default {
                        Some(d) => d,
                        None => sl.min,
                    },
                }),
                None => None,
            },
{
    let mut r: Vec<(String, i64)> = Vec::new();
    let mut i: usize = 0;
    while i < m.sliders.len()
        invariant
            i <= m.sliders@.len(),
            forall|k: Seq<char>| #![trigger lookup(pairs_view(r@), k)]
                lookup(pairs_view(r@), k) == match lookup(pairs_view(m.sliders@.take(i as int)), k) {
                    Some(sl) => Some(match spec_preset_value(sl, *p) {
                        Some(v) => v,
                        None => match sl.default {
                            Some(d) => d,
                            None => sl.min,
                        },
                    }),
                    None => None,
                },
        decreases m.sliders.len() - i,
    {
        let sl = &m.sliders[i].1;
        let v = match sl.preset_value(p) {
            Some(v) => v,
            None => match sl.default {
                Some(d) => d,
                None => sl.min,
            },
        };
        let ghost before = r@;
        let x = (m.sliders[i].0.clone(), v);
        r.push(x);
        proof {
            lemma_pairs_push(before, x);
            lemma_pairs_take(m.sliders@, i as int);
            assert forall|k: Seq<char>| #![trigger lookup(pairs_view(r@), k)]
                lookup(pairs_view(r@), k) == match lookup(pairs_view(m.sliders@.take(i + 1)), k) {
                    Some(sl) => Some(match spec_preset_value(sl, *p) {
                        Some(v) => v,
                        None => match sl.default {
                            Some(d) => d,
                            None => sl.min,
                        },
                    }),
                    None => None,
                } by {
                lemma_lookup_push(pairs_view(before), (x.0@, x.1), k);
                lemma_lookup_push(pairs_view(m.sliders@.take(i as int)), (m.sliders@[i as int].0@, m.sliders@[i as int].1), k);
            }
        }
        i = i + 1;
    }
    assert(m.sliders@.take(m.sliders@.len() as int) =~= m.sliders@);
    r
}

/// A rule's game options made the advised ones, with its note.
fn apply_rule_toggles(adv: &mut Vec<(String, bool)>, notes: &mut Vec<(String, String)>, rule: &AdaptRule)
    ensures
        forall|k: Seq<char>| #![trigger lookup(pairs_view(final(adv)@), k)]
            lookup(pairs_view(final(adv)@), k) == match lookup(pairs_view(rule.toggles@), k) {
                Some(v) => Some(v),
                None => lookup(pairs_view(old(adv)@), k),
            },
        forall|k: Seq<char>| #![trigger lookup(texts_view(final(notes)@), k)]
            lookup(texts_view(final(notes)@), k) == if lookup(pairs_view(rule.toggles@), k) is Some {
                Some(rule.note@)
            } else {
                lookup(texts_view(old(notes)@), k)
            },
{
    let ghost a0 = adv@;
    let ghost n0 = notes@;
    let mut i: usize = 0;
    while i < rule.toggles.len()
        invariant
            i <= rule.toggles@.len(),
            forall|k: Seq<char>| #![trigger lookup(pairs_view(adv@), k)]
                lookup(pairs_view(adv@), k) == match lookup(pairs_view(rule.toggles@.take(i as int)), k) {
                    Some(v) => Some(v),
                    None => lookup(pairs_view(a0), k),
                },
            forall|k: Seq<char>| #![trigger lookup(texts_view(notes@), k)]
                lookup(texts_view(notes@), k) == if lookup(pairs_view(rule.toggles@.take(i as int)), k) is Some {
                    Some(rule.note@)
                } else {
                    lookup(texts_view(n0), k)
                },
        decreases rule.toggles.len() - i,
    {
        let ghost (b0, c0) = (adv@, notes@);
        let x = (rule.toggles[i].0.clone(), rule.toggles[i].1);
        let y = (rule.toggles[i].0.clone(), rule.note.clone());
        adv.push(x);
        notes.push(y);
        proof {
            lemma_pairs_push(b0, x);
            lemma_texts_push(c0, y);
            lemma_pairs_take(rule.toggles@, i as int);
            assert forall|k: Seq<char>| #![trigger lookup(pairs_view(adv@), k)]
                lookup(pairs_view(adv@), k) == match lookup(pairs_view(rule.toggles@.take(i + 1)), k) {
                    Some(v) => Some(v),
                    None => lookup(pairs_view(a0), k),
                } by {
                lemma_lookup_push(pairs_view(b0), (x.0@, x.1), k);
                lemma_lookup_push(pairs_view(rule.toggles@.take(i as int)), (rule.toggles@[i as int].0@, rule.toggles@[i as int].1), k);
            }
            assert forall|k: Seq<char>| #![trigger lookup(texts_view(notes@), k)]
                lookup(texts_view(notes@), k) == if lookup(pairs_view(rule.toggles@.take(i + 1)), k) is Some {
                    Some(rule.note@)
                } else {
                    lookup(texts_view(n0), k)
                } by {
                lemma_lookup_push(texts_view(c0), (y.0@, y.1@), k);
                lemma_lookup_push(pairs_view(rule.toggles@.take(i as int)), (rule.toggles@[i as int].0@, rule.toggles@[i as int].1), k);
            }
        }
        i = i + 1;
    }
    assert(rule.toggles@.take(rule.toggles@.len() as int) =~= rule.toggles@);
}

/// A rule's sliders made the advised ones (those meaningful on this
/// screen), with its note.
fn apply_rule_sliders(adv: &mut Vec<(String, i64)>, notes: &mut Vec<(String, String)>, rule: &AdaptRule, hz: Option<u32>, h: Option<u32>)
    ensures
        forall|k: Seq<char>| #![trigger lookup(pairs_view(final(adv)@), k)]
            lookup(pairs_view(final(adv)@), k) == match rule_slider(rule.sliders@, k, hz, h) {
                Some(v) => Some(v),
                None => lookup(pairs_view(old(adv)@), k),
            },
        forall|k: Seq<char>| #![trigger lookup(texts_view(final(notes)@), k)]
            lookup(texts_view(final(notes)@), k) == if rule_slider(rule.sliders@, k, hz, h) is Some {
                Some(rule.note@)
            } else {
                lookup(texts_view(old(notes)@), k)
            },
{
    let ghost a0 = adv@;
    let ghost n0 = notes@;
    let mut i: usize = 0;
    while i < rule.sliders.len()
        invariant
            i <= rule.sliders@.len(),
            forall|k: Seq<char>| #![trigger lookup(pairs_view(adv@), k)]
                lookup(pairs_view(adv@), k) == match rule_slider(rule.sliders@.take(i as int), k, hz, h) {
                    Some(v) => Some(v),
                    None => lookup(pairs_view(a0), k),
                },
            forall|k: Seq<char>| #![trigger lookup(texts_view(notes@), k)]
                lookup(texts_view(notes@), k) == if rule_slider(rule.sliders@.take(i as int), k, hz, h) is Some {
                    Some(rule.note@)
                } else {
                    lookup(texts_view(n0), k)
                },
        decreases rule.sliders.len() - i,
    {
        let ghost t = rule.sliders@.take(i + 1);
        assert(t.drop_last() =~= rule.sliders@.take(i as int));
        assert(t.last() == rule.sliders@[i as int]);
        match adapt_value(&rule.sliders[i].1, hz, h) {
            Some(v) => {
                let ghost (b0, c0) = (adv@, notes@);
                let x = (rule.sliders[i].0.clone(), v);
                let y = (rule.sliders[i].0.clone(), rule.note.clone());
                adv.push(x);
                notes.push(y);
                proof {
                    lemma_pairs_push(b0, x);
                    lemma_texts_push(c0, y);
                    assert forall|k: Seq<char>| #![trigger lookup(pairs_view(adv@), k)]
                        lookup(pairs_view(adv@), k) == match rule_slider(t, k, hz, h) {
                            Some(v) => Some(v),
                            None => lookup(pairs_view(a0), k),
                        } by {
                        lemma_lookup_push(pairs_view(b0), (x.0@, x.1), k);
                    }
                    assert forall|k: Seq<char>| #![trigger lookup(texts_view(notes@), k)]
                        lookup(texts_view(notes@), k) == if rule_slider(t, k, hz, h) is Some {
                            Some(rule.note@)
                        } else {
                            lookup(texts_view(n0), k)
                        } by {
                        lemma_lookup_push(texts_view(c0), (y.0@, y.1@), k);
                    }
                }
            },
            None => {},
        }
        i = i + 1;
    }
    assert(rule.sliders@.take(rule.sliders@.len() as int) =~= rule.sliders@);
}

/// A rule's files, now edited by that rule (index `j`).
fn apply_rule_files(files: &mut Vec<(String, usize)>, rule: &AdaptRule, j: usize)
    ensures
        forall|k: Seq<char>| #![trigger lookup(pairs_view(final(files)@), k)]
            lookup(pairs_view(final(files)@), k) == if crate::packwiz::holds(rule.files@, k) {
                Some(j)
            } else {
                lookup(pairs_view(old(files)@), k)
            },
{
    let ghost f0 = files@;
    let mut i: usize = 0;
    while i < rule.files.len()
        invariant
            i <= rule.files@.len(),
            forall|k: Seq<char>| #![trigger lookup(pairs_view(files@), k)]
                lookup(pairs_view(files@), k) == if crate::packwiz::holds(rule.files@.take(i as int), k) {
                    Some(j)
                } else {
                    lookup(pairs_view(f0), k)
                },
        decreases rule.files.len() - i,
    {
        let ghost b0 = files@;
        let x = (rule.files[i].clone(), j);
        files.push(x);
        proof {
            lemma_pairs_push(b0, x);
            let t = rule.files@.take(i + 1);
            assert forall|k: Seq<char>| #![trigger lookup(pairs_view(files@), k)]
                lookup(pairs_view(files@), k) == if crate::packwiz::holds(t, k) {
                    Some(j)
                } else {
                    lookup(pairs_view(f0), k)
                } by {
                lemma_lookup_push(pairs_view(b0), (x.0@, x.1), k);
                if crate::packwiz::holds(rule.files@.take(i as int), k) {
                    let w = choose|w: int| 0 <= w < i && (#[trigger] rule.files@.take(i as int)[w])@ == k;
                    assert(t[w] == rule.files@.take(i as int)[w]);
                }
                if crate::packwiz::holds(t, k) && !crate::packwiz::holds(rule.files@.take(i as int), k) {
                    let w = choose|w: int| 0 <= w < i + 1 && (#[trigger] t[w])@ == k;
                    if w < i {
                        assert(rule.files@.take(i as int)[w] == t[w]);
                    }
                }
                if k == rule.files@[i as int]@ {
                    assert(t[i as int]@ == k);
                }
            }
        }
        i = i + 1;
    }
    assert(rule.files@.take(rule.files@.len() as int) =~= rule.files@);
}

/// The advised values after all the rules, the notes and the files of the
/// rules.
fn apply_rules(
    m: &PresetsModel,
    p: &PresetSettings,
    base: &str,
    holds: &Vec<bool>,
    hz: Option<u32>,
    h: Option<u32>,
) -> (r: (Vec<(String, bool)>, Vec<(String, i64)>, Vec<(String, String)>, Vec<(String, usize)>))
    requires
        holds@.len() == m.adapt@.len(),
    ensures
        forall|k: Seq<char>| #![trigger lookup(pairs_view(r.0@), k)]
            lookup(pairs_view(r.0@), k) == adv_toggle(*m, *p, base@, holds@, k, m.adapt@.len() as int),
        forall|k: Seq<char>| #![trigger lookup(pairs_view(r.1@), k)]
            lookup(pairs_view(r.1@), k) == adv_slider(*m, *p, base@, holds@, hz, h, k, m.adapt@.len() as int),
        forall|k: Seq<char>| #![trigger lookup(texts_view(r.2@), k)]
            lookup(texts_view(r.2@), k) == adapt_note(*m, base@, holds@, hz, h, k, m.adapt@.len() as int),
        forall|k: Seq<char>| #![trigger lookup(pairs_view(r.3@), k)]
            lookup(pairs_view(r.3@), k) == adapt_file(*m, base@, holds@, k, m.adapt@.len() as int),
{
    let mut adv_t = base_toggles(m, p);
    let mut adv_s = base_sliders(m, p);
    let mut notes: Vec<(String, String)> = Vec::new();
    let mut files: Vec<(String, usize)> = Vec::new();
    let mut j: usize = 0;
    while j < m.adapt.len()
        invariant
            j <= m.adapt@.len(),
            holds@.len() == m.adapt@.len(),
            forall|k: Seq<char>| #![trigger lookup(pairs_view(adv_t@), k)]
                lookup(pairs_view(adv_t@), k) == adv_toggle(*m, *p, base@, holds@, k, j as int),
            forall|k: Seq<char>| #![trigger lookup(pairs_view(adv_s@), k)]
                lookup(pairs_view(adv_s@), k) == adv_slider(*m, *p, base@, holds@, hz, h, k, j as int),
            forall|k: Seq<char>| #![trigger lookup(texts_view(notes@), k)]
                lookup(texts_view(notes@), k) == adapt_note(*m, base@, holds@, hz, h, k, j as int),
            forall|k: Seq<char>| #![trigger lookup(pairs_view(files@), k)]
                lookup(pairs_view(files@), k) == adapt_file(*m, base@, holds@, k, j as int),
        decreases m.adapt.len() - j,
    {
        let rule = &m.adapt[j];
        let applies = holds[j] && match &rule.presets {
            Some(ps) => names_hold(ps, base),
            None => true,
        };
        assert(applies == rule_applies(m.adapt@[j as int], base@, holds@[j as int]));
        if applies {
            let ghost (t0, s0, n0, f0) = (adv_t@, adv_s@, notes@, files@);
            apply_rule_toggles(&mut adv_t, &mut notes, rule);
            let ghost n1 = notes@;
            apply_rule_sliders(&mut adv_s, &mut notes, rule, hz, h);
            apply_rule_files(&mut files, rule, j);
            proof {
                assert forall|k: Seq<char>| #![trigger lookup(texts_view(notes@), k)]
                    lookup(texts_view(notes@), k) == adapt_note(*m, base@, holds@, hz, h, k, j + 1) by {
                    assert(lookup(texts_view(n1), k) == if lookup(pairs_view(rule.toggles@), k) is Some {
                        Some(rule.note@)
                    } else {
                        lookup(texts_view(n0), k)
                    });
                }
                assert forall|k: Seq<char>| #![trigger lookup(pairs_view(adv_t@), k)]
                    lookup(pairs_view(adv_t@), k) == adv_toggle(*m, *p, base@, holds@, k, j + 1) by {
                    assert(lookup(pairs_view(t0), k) == adv_toggle(*m, *p, base@, holds@, k, j as int));
                }
                assert forall|k: Seq<char>| #![trigger lookup(pairs_view(adv_s@), k)]
                    lookup(pairs_view(adv_s@), k) == adv_slider(*m, *p, base@, holds@, hz, h, k, j + 1) by {
                    assert(lookup(pairs_view(s0), k) == adv_slider(*m, *p, base@, holds@, hz, h, k, j as int));
                }
                assert forall|k: Seq<char>| #![trigger lookup(pairs_view(files@), k)]
                    lookup(pairs_view(files@), k) == adapt_file(*m, base@, holds@, k, j + 1) by {
                    assert(lookup(pairs_view(f0), k) == adapt_file(*m, base@, holds@, k, j as int));
                }
            }
        } else {
            proof {
                assert forall|k: Seq<char>| #![trigger lookup(texts_view(notes@), k)]
                    lookup(texts_view(notes@), k) == adapt_note(*m, base@, holds@, hz, h, k, j + 1) by {}
                assert forall|k: Seq<char>| #![trigger lookup(pairs_view(adv_t@), k)]
                    lookup(pairs_view(adv_t@), k) == adv_toggle(*m, *p, base@, holds@, k, j + 1) by {}
                assert forall|k: Seq<char>| #![trigger lookup(pairs_view(adv_s@), k)]
                    lookup(pairs_view(adv_s@), k) == adv_slider(*m, *p, base@, holds@, hz, h, k, j + 1) by {}
                assert forall|k: Seq<char>| #![trigger lookup(pairs_view(files@), k)]
                    lookup(pairs_view(files@), k) == adapt_file(*m, base@, holds@, k, j + 1) by {}
            }
        }
        j = j + 1;
    }
    (adv_t, adv_s, notes, files)
}

proof fn lemma_adv_slider_some(m: PresetsModel, p: PresetSettings, base: Seq<char>, holds: Seq<bool>, hz: Option<u32>, h: Option<u32>, k: Seq<char>, j: int)
    requires
        lookup(pairs_view(m.sliders@), k) is Some,
    ensures
        adv_slider(m, p, base, holds, hz, h, k, j) is Some,
    decreases j,
{
    if j > 0 {
        lemma_adv_slider_some(m, p, base, holds, hz, h, k, j - 1);
    }
}

/// The player's game options over the advised ones.
fn final_toggles(adv: &Vec<(String, bool)>, c: &Choices) -> (r: Vec<(String, bool)>)
    ensures
        forall|k: Seq<char>| #![trigger lookup(pairs_view(r@), k)]
            lookup(pairs_view(r@), k) == match lookup(pairs_view(adv@), k) {
                Some(v) => Some(match lookup(pairs_view(c.toggles@), k) {
                    Some(u) => u,
                    None => v,
                }),
                None => None,
            },
{
    let mut r: Vec<(String, bool)> = Vec::new();
    let mut i: usize = 0;
    while i < adv.len()
        invariant
            i <= adv@.len(),
            forall|k: Seq<char>| #![trigger lookup(pairs_view(r@), k)]
                lookup(pairs_view(r@), k) == match lookup(pairs_view(adv@.take(i as int)), k) {
                    Some(v) => Some(match lookup(pairs_view(c.toggles@), k) {
                        Some(u) => u,
                        None => v,
                    }),
                    None => None,
                },
        decreases adv.len() - i,
    {
        let v = match find_key(&c.toggles, adv[i].0.as_str()) {
            Some(j) => c.toggles[j].1,
            None => adv[i].1,
        };
        let ghost before = r@;
        let x = (adv[i].0.clone(), v);
        r.push(x);
        proof {
            lemma_pairs_push(before, x);
            lemma_pairs_take(adv@, i as int);
            assert forall|k: Seq<char>| #![trigger lookup(pairs_view(r@), k)]
                lookup(pairs_view(r@), k) == match lookup(pairs_view(adv@.take(i + 1)), k) {
                    Some(v) => Some(match lookup(pairs_view(c.toggles@), k) {
                        Some(u) => u,
                        None => v,
                    }),
                    None => None,
                } by {
                lemma_lookup_push(pairs_view(before), (x.0@, x.1), k);
                lemma_lookup_push(pairs_view(adv@.take(i as int)), (adv@[i as int].0@, adv@[i as int].1), k);
            }
        }
        i = i + 1;
    }
    assert(adv@.take(adv@.len() as int) =~= adv@);
    r
}

/// The groups of the preset, then each game option's groups set to its
/// value, then each mod chosen one by one.
fn resolve_groups(m: &PresetsModel, p: &PresetSettings, toggles: &Vec<(String, bool)>, c: &Choices, Ghost(value): Ghost<spec_fn(Seq<char>) -> bool>) -> (r: Vec<String>)
    requires
        forall|k: Seq<char>| #![trigger value(k)] value(k) == (lookup(pairs_view(toggles@), k) == Some(true)),
    ensures
        names_view(r@) == mod_groups(toggle_groups(names_view(p.groups@), m.toggles@, value), c.mods@),
{
    let mut gs: Vec<String> = Vec::new();
    let mut i: usize = 0;
    while i < p.groups.len()
        invariant
            i <= p.groups@.len(),
            names_view(gs@) == names_view(p.groups@).take(i as int),
        decreases p.groups.len() - i,
    {
        let ghost before = gs@;
        let x = p.groups[i].clone();
        gs.push(x);
        assert(names_view(gs@) =~= names_view(before).push(x@));
        assert(names_view(p.groups@).take(i + 1) =~= names_view(p.groups@).take(i as int).push(p.groups@[i as int]@));
        i = i + 1;
    }
    assert(names_view(p.groups@).take(p.groups@.len() as int) =~= names_view(p.groups@));
    let mut i: usize = 0;
    while i < m.toggles.len()
        invariant
            i <= m.toggles@.len(),
            forall|k: Seq<char>| #![trigger value(k)] value(k) == (lookup(pairs_view(toggles@), k) == Some(true)),
            names_view(gs@) == toggle_groups(names_view(p.groups@), m.toggles@.take(i as int), value),
        decreases m.toggles.len() - i,
    {
        let ghost t = m.toggles@.take(i + 1);
        assert(t.drop_last() =~= m.toggles@.take(i as int));
        assert(t.last() == m.toggles@[i as int]);
        let on = match find_key(toggles, m.toggles[i].0.as_str()) {
            Some(j) => toggles[j].1,
            None => false,
        };
        assert(on == value(m.toggles@[i as int].0@));
        let groups = &m.toggles[i].1.groups;
        let ghost g0 = names_view(gs@);
        let mut j: usize = 0;
        while j < groups.len()
            invariant
                j <= groups@.len(),
                names_view(gs@) == set_groups(g0, groups@.take(j as int), on),
            decreases groups.len() - j,
        {
            let ghost tg = groups@.take(j + 1);
            assert(tg.drop_last() =~= groups@.take(j as int));
            assert(tg.last() == groups@[j as int]);
            set_group_in(&mut gs, groups[j].as_str(), on);
            j = j + 1;
        }
        assert(groups@.take(groups@.len() as int) =~= groups@);
        i = i + 1;
    }
    assert(m.toggles@.take(m.toggles@.len() as int) =~= m.toggles@);
    let ghost g1 = names_view(gs@);
    let mut i: usize = 0;
    while i < c.mods.len()
        invariant
            i <= c.mods@.len(),
            names_view(gs@) == mod_groups(g1, c.mods@.take(i as int)),
        decreases c.mods.len() - i,
    {
        let ghost t = c.mods@.take(i + 1);
        assert(t.drop_last() =~= c.mods@.take(i as int));
        assert(t.last() == c.mods@[i as int]);
        set_group_in(&mut gs, c.mods[i].0.as_str(), c.mods[i].1);
        i = i + 1;
    }
    assert(c.mods@.take(c.mods@.len() as int) =~= c.mods@);
    gs
}

/// The sliders: the player's value, else the advised one, within bounds.
fn final_sliders(m: &PresetsModel, adv: &Vec<(String, i64)>, c: &Choices, Ghost(adv_of): Ghost<spec_fn(Seq<char>) -> Option<i64>>) -> (r: Vec<(String, i64)>)
    requires
        sliders_well_formed(*m),
        forall|k: Seq<char>| #![trigger adv_of(k)] adv_of(k) == lookup(pairs_view(adv@), k),
        forall|k: Seq<char>| lookup(pairs_view(m.sliders@), k) is Some ==> (#[trigger] adv_of(k)) is Some,
    ensures
        forall|k: Seq<char>| #![trigger lookup(pairs_view(r@), k)]
            lookup(pairs_view(r@), k) == match lookup(pairs_view(m.sliders@), k) {
                Some(sl) => Some(clamp(
                    match lookup(pairs_view(c.sliders@), k) {
                        Some(u) => u,
                        None => adv_of(k)->0,
                    },
                    sl.min,
                    sl.max,
                )),
                None => None,
            },
{
    let mut r: Vec<(String, i64)> = Vec::new();
    let mut i: usize = 0;
    while i < m.sliders.len()
        invariant
            i <= m.sliders@.len(),
            sliders_well_formed(*m),
            forall|k: Seq<char>| #![trigger adv_of(k)] adv_of(k) == lookup(pairs_view(adv@), k),
            forall|k: Seq<char>| lookup(pairs_view(m.sliders@), k) is Some ==> (#[trigger] adv_of(k)) is Some,
            forall|k: Seq<char>| #![trigger lookup(pairs_view(r@), k)]
                lookup(pairs_view(r@), k) == match lookup(pairs_view(m.sliders@.take(i as int)), k) {
                    Some(sl) => Some(clamp(
                        match lookup(pairs_view(c.sliders@), k) {
                            Some(u) => u,
                            None => adv_of(k)->0,
                        },
                        sl.min,
                        sl.max,
                    )),
                    None => None,
                },
        decreases m.sliders.len() - i,
    {
        let id = &m.sliders[i].0;
        let sl = &m.sliders[i].1;
        proof {
            lemma_pairs_take(m.sliders@, i as int);
            lemma_lookup_push(pairs_view(m.sliders@.take(i as int)), (m.sliders@[i as int].0@, m.sliders@[i as int].1), id@);
            assert(m.sliders@.take(i + 1) == m.sliders@.subrange(0, i + 1));
            lemma_lookup_prefix_some(pairs_view(m.sliders@), i + 1, id@);
        }
        let v = match find_key(&c.sliders, id.as_str()) {
            Some(j) => c.sliders[j].1,
            None => match find_key(adv, id.as_str()) {
                Some(j) => adv[j].1,
                None => {
                    proof {
                        assert(adv_of(id@) is Some);
                    }
                    0
                },
            },
        };
        assert(sl.min <= sl.max) by {
            assert(m.sliders@[i as int].1 == *sl);
        }
        let cv = if v < sl.min {
            sl.min
        } else if v > sl.max {
            sl.max
        } else {
            v
        };
        let ghost before = r@;
        let x = (id.clone(), cv);
        r.push(x);
        proof {
            lemma_pairs_push(before, x);
            assert forall|k: Seq<char>| #![trigger lookup(pairs_view(r@), k)]
                lookup(pairs_view(r@), k) == match lookup(pairs_view(m.sliders@.take(i + 1)), k) {
                    Some(sl) => Some(clamp(
                        match lookup(pairs_view(c.sliders@), k) {
                            Some(u) => u,
                            None => adv_of(k)->0,
                        },
                        sl.min,
                        sl.max,
                    )),
                    None => None,
                } by {
                lemma_lookup_push(pairs_view(before), (x.0@, x.1), k);
                lemma_lookup_push(pairs_view(m.sliders@.take(i as int)), (m.sliders@[i as int].0@, m.sliders@[i as int].1), k);
            }
        }
        i = i + 1;
    }
    assert(m.sliders@.take(m.sliders@.len() as int) =~= m.sliders@);
    r
}

/// A key found in a prefix is found in the whole list.
proof fn lemma_lookup_prefix_some<V>(s: Seq<(Seq<char>, V)>, n: int, k: Seq<char>)
    requires
        0 <= n <= s.len(),
        lookup(s.subrange(0, n), k) is Some,
    ensures
        lookup(s, k) is Some,
    decreases s.len() - n,
{
    if n < s.len() {
        let t = s.subrange(0, n + 1);
        assert(t.drop_last() =~= s.subrange(0, n));
        lemma_lookup_prefix_some(s, n + 1, k);
    } else {
        assert(s.subrange(0, n) =~= s);
    }
}

/// The notes of the settings the player did not change himself.
fn keep_notes(notes: &Vec<(String, String)>, c: &Choices) -> (r: Vec<(String, String)>)
    ensures
        forall|k: Seq<char>| #![trigger lookup(texts_view(r@), k)]
            lookup(texts_view(r@), k) == if lookup(pairs_view(c.toggles@), k) is Some || lookup(pairs_view(c.sliders@), k) is Some {
                None
            } else {
                lookup(texts_view(notes@), k)
            },
{
    let mut r: Vec<(String, String)> = Vec::new();
    let mut i: usize = 0;
    while i < notes.len()
        invariant
            i <= notes@.len(),
            forall|k: Seq<char>| #![trigger lookup(texts_view(r@), k)]
                lookup(texts_view(r@), k) == if lookup(pairs_view(c.toggles@), k) is Some || lookup(pairs_view(c.sliders@), k) is Some {
                    None
                } else {
                    lookup(texts_view(notes@.take(i as int)), k)
                },
        decreases notes.len() - i,
    {
        let id = notes[i].0.as_str();
        let user = find_key(&c.toggles, id).is_some() || find_key(&c.sliders, id).is_some();
        let ghost before = r@;
        proof {
            assert(texts_view(notes@.take(i + 1)) =~= texts_view(notes@.take(i as int)).push((notes@[i as int].0@, notes@[i as int].1@)));
        }
        if !user {
            let x = (notes[i].0.clone(), notes[i].1.clone());
            r.push(x);
            proof {
                lemma_texts_push(before, x);
            }
        }
        proof {
            assert forall|k: Seq<char>| #![trigger lookup(texts_view(r@), k)]
                lookup(texts_view(r@), k) == if lookup(pairs_view(c.toggles@), k) is Some || lookup(pairs_view(c.sliders@), k) is Some {
                    None
                } else {
                    lookup(texts_view(notes@.take(i + 1)), k)
                } by {
                lemma_lookup_push(texts_view(notes@.take(i as int)), (notes@[i as int].0@, notes@[i as int].1@), k);
                if !user {
                    lemma_lookup_push(texts_view(before), (notes@[i as int].0@, notes@[i as int].1@), k);
                }
            }
        }
        i = i + 1;
    }
    assert(notes@.take(notes@.len() as int) =~= notes@);
    r
}

/// Resolves the player's choices into a concrete preset: the preset to
/// start from (`detected` is the one the machine gets), its advised values
/// adjusted by the rules the machine meets (`holds`, one per rule), the
/// player's values over them, the optional mod groups, and what the rules
/// changed that the player did not.
pub fn resolve(
    m: &PresetsModel,
    c: &Choices,
    detected: &str,
    holds: &Vec<bool>,
    refresh_hz: Option<u32>,
    height_px: Option<u32>,
) -> (r: Resolution)
    requires
        lookup(pairs_view(m.presets@), spec_base(*c, detected@, *m)) is Some,
        holds@.len() == m.adapt@.len(),
        sliders_well_formed(*m),
    ensures
        ({
            let base = spec_base(*c, detected@, *m);
            let p = lookup(pairs_view(m.presets@), base)->0;
            let n = m.adapt@.len() as int;
            &&& r.preset@ == base
            &&& names_view(r.groups@) == spec_groups(*m, p, base, holds@, *c)
            &&& forall|k: Seq<char>| #![trigger lookup(pairs_view(r.toggles@), k)]
                lookup(pairs_view(r.toggles@), k) == final_toggle(*m, p, base, holds@, *c, k)
            &&& forall|k: Seq<char>| #![trigger lookup(pairs_view(r.sliders@), k)]
                lookup(pairs_view(r.sliders@), k) == final_slider(*m, p, base, holds@, refresh_hz, height_px, *c, k)
            &&& forall|k: Seq<char>| #![trigger lookup(texts_view(r.adapted@), k)]
                lookup(texts_view(r.adapted@), k) == if lookup(pairs_view(c.toggles@), k) is Some || lookup(
                    pairs_view(c.sliders@),
                    k,
                ) is Some {
                    None
                } else {
                    adapt_note(*m, base, holds@, refresh_hz, height_px, k, n)
                }
            &&& forall|k: Seq<char>| #![trigger lookup(pairs_view(r.adapt_files@), k)]
                lookup(pairs_view(r.adapt_files@), k) == adapt_file(*m, base, holds@, k, n)
        }),
{
    let base = base_of(c, detected, m);
    let ghost b = base@;
    let pi = match find_key(&m.presets, base.as_str()) {
        Some(i) => i,
        None => {
            proof {
                assert(false);
            }
            0
        },
    };
    let p = &m.presets[pi].1;
    let ghost n = m.adapt@.len() as int;
    let (adv_t, adv_s, notes, files) = apply_rules(m, p, base.as_str(), holds, refresh_hz, height_px);
    let toggles = final_toggles(&adv_t, c);
    let ghost value = |k: Seq<char>| final_toggle(*m, *p, b, holds@, *c, k) == Some(true);
    let groups = resolve_groups(m, p, &toggles, c, Ghost(value));
    let ghost adv_of = |k: Seq<char>| adv_slider(*m, *p, b, holds@, refresh_hz, height_px, k, n);
    proof {
        assert forall|k: Seq<char>| lookup(pairs_view(m.sliders@), k) is Some implies (#[trigger] adv_of(k)) is Some by {
            lemma_adv_slider_some(*m, *p, b, holds@, refresh_hz, height_px, k, n);
        }
    }
    let sliders = final_sliders(m, &adv_s, c, Ghost(adv_of));
    let adapted = keep_notes(&notes, c);
    Resolution { preset: base, groups, toggles, sliders, adapted, adapt_files: files }
}

// ─── Editing options.txt and .properties files ─────────────────────────────

/// Lines written out: joined by `\n`, with a final `\n`.
pub open spec fn join_lines(lines: Seq<Seq<char>>) -> Seq<char> {
    if lines.len() == 0 {
        "\n"@
    } else {
        crate::launch::unlines(lines)
    }
}

/// Lines joined by `\n`, with a final `\n` (`lines.join("\n") + "\n"`).
pub fn join_lines_exec(lines: &Vec<String>) -> (r: String)
    ensures
        r@ == join_lines(names_view(lines@)),
{
    if lines.len() == 0 {
        return "\n".to_owned();
    }
    let mut r = String::new();
    let mut i: usize = 0;
    while i < lines.len()
        invariant
            i <= lines@.len(),
            r@ == crate::launch::unlines(names_view(lines@).take(i as int)),
        decreases lines.len() - i,
    {
        let ghost t = names_view(lines@).take(i + 1);
        assert(t.drop_last() =~= names_view(lines@).take(i as int));
        r.append(lines[i].as_str());
        r.append("\n");
        i = i + 1;
    }
    assert(names_view(lines@).take(lines@.len() as int) =~= names_view(lines@));
    r
}

/// `s` without its leading white space (`str::trim_start`).
pub open spec fn trim_start(s: Seq<char>) -> Seq<char> {
    s.subrange(crate::text::trim_start_index(s), s.len() as int)
}

/// What a line of a .properties file starts with, up to its first `=` or
/// `:`.
pub open spec fn before_sep(s: Seq<char>) -> Seq<char>
    decreases s.len(),
{
    if s.len() == 0 || s[0] == '=' || s[0] == ':' {
        Seq::empty()
    } else {
        seq![s[0]] + before_sep(s.drop_first())
    }
}

/// A line of a .properties file setting `key` (not a comment).
pub open spec fn sets_key(line: Seq<char>, key: Seq<char>) -> bool {
    !starts_with(trim_start(line), "#"@) && spec_trim(before_sep(trim_start(line))) == key
}

/// Index of the first line setting `key`.
pub open spec fn first_setting(lines: Seq<Seq<char>>, key: Seq<char>) -> Option<int>
    decreases lines.len(),
{
    if lines.len() == 0 {
        None
    } else if sets_key(lines[0], key) {
        Some(0)
    } else {
        match first_setting(lines.drop_first(), key) {
            Some(i) => Some(i + 1),
            None => None,
        }
    }
}

proof fn lemma_first_setting(lines: Seq<Seq<char>>, key: Seq<char>)
    ensures
        first_setting(lines, key) matches Some(i) ==> 0 <= i < lines.len() && sets_key(lines[i], key),
        first_setting(lines, key) is None ==> forall|j: int| 0 <= j < lines.len() ==> !sets_key(#[trigger] lines[j], key),
    decreases lines.len(),
{
    if lines.len() > 0 && !sets_key(lines[0], key) {
        lemma_first_setting(lines.drop_first(), key);
        if first_setting(lines.drop_first(), key) is Some {
            let i = first_setting(lines.drop_first(), key)->0;
            assert(lines[i + 1] == lines.drop_first()[i]);
        } else {
            assert forall|j: int| 0 <= j < lines.len() implies !sets_key(#[trigger] lines[j], key) by {
                if j > 0 {
                    assert(lines[j] == lines.drop_first()[j - 1]);
                }
            }
        }
    }
}

proof fn lemma_first_setting_at(lines: Seq<Seq<char>>, key: Seq<char>, k: int)
    requires
        0 <= k < lines.len(),
        sets_key(lines[k], key),
        forall|j: int| 0 <= j < k ==> !sets_key(#[trigger] lines[j], key),
    ensures
        first_setting(lines, key) == Some(k),
    decreases k,
{
    if k > 0 {
        assert forall|j: int| 0 <= j < k - 1 implies !sets_key(#[trigger] lines.drop_first()[j], key) by {
            assert(lines.drop_first()[j] == lines[j + 1]);
        }
        assert(!sets_key(lines[0], key));
        lemma_first_setting_at(lines.drop_first(), key, k - 1);
    }
}

/// `key=value` set in the lines: on the first line setting `key`, or on a
/// new last line.
pub open spec fn set_property(lines: Seq<Seq<char>>, key: Seq<char>, value: Seq<char>) -> Seq<Seq<char>> {
    match first_setting(lines, key) {
        Some(i) => lines.update(i, key + "="@ + value),
        None => lines.push(key + "="@ + value),
    }
}

/// A key that reads back as itself in a `.properties` line: not empty,
/// without white space at its ends, not a comment, and without `=` or `:`.
pub open spec fn plain_key(key: Seq<char>) -> bool {
    &&& key.len() > 0
    &&& !crate::text::is_space(key[0])
    &&& !crate::text::is_space(key.last())
    &&& key[0] != '#'
    &&& forall|i: int| 0 <= i < key.len() ==> #[trigger] key[i] != '=' && key[i] != ':'
}

proof fn lemma_first_setting_before(lines: Seq<Seq<char>>, key: Seq<char>)
    ensures
        first_setting(lines, key) matches Some(i) ==> forall|j: int| 0 <= j < i ==> !sets_key(#[trigger] lines[j], key),
    decreases lines.len(),
{
    if lines.len() > 0 && !sets_key(lines[0], key) {
        lemma_first_setting_before(lines.drop_first(), key);
        lemma_first_setting(lines.drop_first(), key);
        if first_setting(lines.drop_first(), key) is Some {
            let i = first_setting(lines.drop_first(), key)->0;
            assert forall|j: int| 0 <= j < i + 1 implies !sets_key(#[trigger] lines[j], key) by {
                if j > 0 {
                    assert(lines[j] == lines.drop_first()[j - 1]);
                }
            }
        }
    }
}

proof fn lemma_before_sep_key(key: Seq<char>, rest: Seq<char>)
    requires
        forall|i: int| 0 <= i < key.len() ==> #[trigger] key[i] != '=' && key[i] != ':',
    ensures
        before_sep(key + "="@ + rest) == key,
    decreases key.len(),
{
    reveal_strlit("=");
    if key.len() == 0 {
        assert((key + "="@ + rest)[0] == '=');
    } else {
        let s = key + "="@ + rest;
        assert(s[0] == key[0]);
        assert(s.drop_first() =~= key.drop_first() + "="@ + rest);
        assert forall|i: int| 0 <= i < key.drop_first().len() implies #[trigger] key.drop_first()[i] != '=' && key.drop_first()[i] != ':' by {
            assert(key.drop_first()[i] == key[i + 1]);
        }
        lemma_before_sep_key(key.drop_first(), rest);
        assert(seq![key[0]] + key.drop_first() =~= key);
    }
}

/// The line `key=value` sets `key`, for a plain key.
proof fn lemma_sets_own_key(key: Seq<char>, value: Seq<char>)
    requires
        plain_key(key),
    ensures
        sets_key(key + "="@ + value, key),
{
    reveal_strlit("=");
    reveal_strlit("#");
    let line = key + "="@ + value;
    assert(line[0] == key[0]);
    assert(crate::text::trim_start_index(line) == 0);
    assert(trim_start(line) =~= line);
    lemma_before_sep_key(key, value);
    crate::text::lemma_trim_start_index(key);
    crate::text::lemma_trim_end_index(key);
    assert(crate::text::trim_start_index(key) == 0);
    assert(crate::text::trim_end_index(key) == key.len());
    assert(spec_trim(key) =~= key);
    assert(!starts_with(line, "#"@)) by {
        if starts_with(line, "#"@) {
            assert(line.subrange(0, 1)[0] == '#');
        }
    }
}

/// After `key=value` is set, the first line setting a plain `key` reads
/// `key=value`, and setting it again changes nothing.
pub proof fn lemma_set_property_reads_back(lines: Seq<Seq<char>>, key: Seq<char>, value: Seq<char>)
    requires
        plain_key(key),
    ensures
        ({
            let l = set_property(lines, key, value);
            &&& first_setting(l, key) matches Some(i) && l[i] == key + "="@ + value
            &&& set_property(l, key, value) == l
        }),
{
    let kv = key + "="@ + value;
    lemma_sets_own_key(key, value);
    lemma_first_setting(lines, key);
    let l = set_property(lines, key, value);
    match first_setting(lines, key) {
        Some(i) => {
            lemma_first_setting_before(lines, key);
            assert forall|j: int| 0 <= j < i implies !sets_key(#[trigger] l[j], key) by {
                assert(l[j] == lines[j]);
            }
            lemma_first_setting_at(l, key, i);
            assert(l.update(i, kv) =~= l);
        },
        None => {
            assert forall|j: int| 0 <= j < lines.len() implies !sets_key(#[trigger] l[j], key) by {
                assert(l[j] == lines[j]);
            }
            lemma_first_setting_at(l, key, lines.len() as int);
            assert(l.update(lines.len() as int, kv) =~= l);
        },
    }
}

/// Each `key=value` of `set`, in turn.
pub open spec fn set_properties(lines: Seq<Seq<char>>, set: Seq<(String, String)>) -> Seq<Seq<char>>
    decreases set.len(),
{
    if set.len() == 0 {
        lines
    } else {
        set_property(set_properties(lines, set.drop_last()), set.last().0@, set.last().1@)
    }
}

/// Whether `line` sets `key`.
fn line_sets_key(line: &str, key: &str) -> (r: bool)
    ensures
        r == sets_key(line@, key@),
{
    let v = to_chars(line);
    proof {
        crate::text::lemma_trim_start_index(v@);
    }
    let a = crate::text::first_non_space(&v);
    let ts = sub_vec(&v, a, v.len());
    assert(ts@ == trim_start(line@));
    if ts.len() > 0 && ts[0] == '#' {
        proof {
            reveal_strlit("#");
            assert(starts_with(ts@, "#"@)) by {
                assert(ts@.subrange(0, 1) =~= "#"@);
            }
        }
        return false;
    }
    proof {
        reveal_strlit("#");
        if ts@.len() > 0 {
            assert(ts@.subrange(0, 1)[0] == ts@[0]);
        }
    }
    let mut e: usize = 0;
    assert(ts@.subrange(0, 0) + before_sep(ts@.subrange(0, ts@.len() as int)) =~= before_sep(ts@)) by {
        assert(ts@.subrange(0, ts@.len() as int) =~= ts@);
    }
    while e < ts.len() && ts[e] != '=' && ts[e] != ':'
        invariant
            e <= ts@.len(),
            before_sep(ts@) == ts@.subrange(0, e as int) + before_sep(ts@.subrange(e as int, ts@.len() as int)),
        decreases ts.len() - e,
    {
        proof {
            let rest = ts@.subrange(e as int, ts@.len() as int);
            assert(rest.drop_first() =~= ts@.subrange(e + 1, ts@.len() as int));
            assert(ts@.subrange(0, e + 1) =~= ts@.subrange(0, e as int) + seq![rest[0]]);
        }
        e = e + 1;
    }
    proof {
        assert(ts@.subrange(0, 0) =~= Seq::<char>::empty());
        assert(before_sep(ts@.subrange(e as int, ts@.len() as int)) =~= Seq::<char>::empty());
        assert(before_sep(ts@) =~= ts@.subrange(0, e as int));
    }
    let head = sub_vec(&ts, 0, e);
    let trimmed = trim_chars(&head);
    str_eq(trimmed.as_str(), key)
}

/// `key=value` set in the lines (see `set_property`).
fn set_property_in(lines: &mut Vec<String>, key: &str, value: &str)
    ensures
        names_view(final(lines)@) == set_property(names_view(old(lines)@), key@, value@),
{
    let ghost ls = names_view(lines@);
    proof {
        lemma_first_setting(ls, key@);
    }
    let mut line = key.to_owned();
    line.append("=");
    line.append(value);
    let mut i: usize = 0;
    while i < lines.len()
        invariant
            i <= lines@.len(),
            ls == names_view(lines@),
            ls == names_view(old(lines)@),
            line@ == key@ + "="@ + value@,
            forall|j: int| 0 <= j < i ==> !sets_key(#[trigger] ls[j], key@),
        decreases lines.len() - i,
    {
        assert(ls[i as int] == lines@[i as int]@);
        if line_sets_key(lines[i].as_str(), key) {
            proof {
                lemma_first_setting_at(ls, key@, i as int);
            }
            let ghost before = lines@;
            lines.set(i, line);
            assert(names_view(lines@) =~= ls.update(i as int, line@));
            return;
        }
        i = i + 1;
    }
    let ghost before = lines@;
    lines.push(line);
    assert(names_view(lines@) =~= ls.push(line@));
}

/// A `.properties` file with each key of `set` given its value (as text):
/// the first line setting the key is replaced, or a line is added; comments
/// and the rest are kept.
pub open spec fn spec_edit_properties(text: Seq<char>, set: Seq<(String, String)>) -> Seq<char> {
    join_lines(set_properties(crate::text::spec_lines(text), set))
}

pub fn edit_properties(text: &str, set: &Vec<(String, String)>) -> (r: String)
    ensures
        r@ == spec_edit_properties(text@, set@),
{
    let mut lines = crate::text::lines_of(text);
    assert(names_view(lines@) =~= crate::text::strings_of(lines@));
    let ghost l0 = names_view(lines@);
    let mut i: usize = 0;
    while i < set.len()
        invariant
            i <= set@.len(),
            names_view(lines@) == set_properties(l0, set@.take(i as int)),
        decreases set.len() - i,
    {
        let ghost t = set@.take(i + 1);
        assert(t.drop_last() =~= set@.take(i as int));
        assert(t.last() == set@[i as int]);
        set_property_in(&mut lines, set[i].0.as_str(), set[i].1.as_str());
        i = i + 1;
    }
    assert(set@.take(set@.len() as int) =~= set@);
    join_lines_exec(&lines)
}

/// A line of options.txt set: `key:value` on the first line starting with
/// `key:`, or on a new last line.
pub open spec fn set_option(lines: Seq<Seq<char>>, key: Seq<char>, value: Seq<char>) -> Seq<Seq<char>> {
    match first_with_prefix(lines, key + ":"@) {
        Some(i) => lines.update(i, key + ":"@ + value),
        None => lines.push(key + ":"@ + value),
    }
}

/// Index of the first line starting with `p`.
pub open spec fn first_with_prefix(lines: Seq<Seq<char>>, p: Seq<char>) -> Option<int>
    decreases lines.len(),
{
    if lines.len() == 0 {
        None
    } else if starts_with(lines[0], p) {
        Some(0)
    } else {
        match first_with_prefix(lines.drop_first(), p) {
            Some(i) => Some(i + 1),
            None => None,
        }
    }
}

proof fn lemma_first_with_prefix_at(lines: Seq<Seq<char>>, p: Seq<char>, k: int)
    requires
        0 <= k < lines.len(),
        starts_with(lines[k], p),
        forall|j: int| 0 <= j < k ==> !starts_with(#[trigger] lines[j], p),
    ensures
        first_with_prefix(lines, p) == Some(k),
    decreases k,
{
    if k > 0 {
        assert forall|j: int| 0 <= j < k - 1 implies !starts_with(#[trigger] lines.drop_first()[j], p) by {
            assert(lines.drop_first()[j] == lines[j + 1]);
        }
        assert(!starts_with(lines[0], p));
        lemma_first_with_prefix_at(lines.drop_first(), p, k - 1);
    }
}

proof fn lemma_first_with_prefix_none(lines: Seq<Seq<char>>, p: Seq<char>)
    requires
        forall|j: int| 0 <= j < lines.len() ==> !starts_with(#[trigger] lines[j], p),
    ensures
        first_with_prefix(lines, p) is None,
    decreases lines.len(),
{
    if lines.len() > 0 {
        assert forall|j: int| 0 <= j < lines.drop_first().len() implies !starts_with(#[trigger] lines.drop_first()[j], p) by {
            assert(lines.drop_first()[j] == lines[j + 1]);
        }
        assert(!starts_with(lines[0], p));
        lemma_first_with_prefix_none(lines.drop_first(), p);
    }
}

proof fn lemma_first_with_prefix_found(lines: Seq<Seq<char>>, p: Seq<char>)
    ensures
        match first_with_prefix(lines, p) {
            Some(i) => 0 <= i < lines.len() && starts_with(lines[i], p) && forall|j: int| 0 <= j < i ==> !starts_with(#[trigger] lines[j], p),
            None => forall|j: int| 0 <= j < lines.len() ==> !starts_with(#[trigger] lines[j], p),
        },
    decreases lines.len(),
{
    if lines.len() > 0 && !starts_with(lines[0], p) {
        let d = lines.drop_first();
        lemma_first_with_prefix_found(d, p);
        match first_with_prefix(d, p) {
            Some(i) => {
                assert forall|j: int| 0 <= j < i + 1 implies !starts_with(#[trigger] lines[j], p) by {
                    if j > 0 {
                        assert(lines[j] == d[j - 1]);
                    }
                }
                assert(lines[i + 1] == d[i]);
            },
            None => {
                assert forall|j: int| 0 <= j < lines.len() implies !starts_with(#[trigger] lines[j], p) by {
                    if j > 0 {
                        assert(lines[j] == d[j - 1]);
                    }
                }
            },
        }
    }
}

/// After `key:value` is set, the first line for `key` reads `key:value`,
/// and setting it again changes nothing.
pub proof fn lemma_set_option_reads_back(lines: Seq<Seq<char>>, key: Seq<char>, value: Seq<char>)
    ensures
        ({
            let l = set_option(lines, key, value);
            &&& first_with_prefix(l, key + ":"@) matches Some(i) && l[i] == key + ":"@ + value
            &&& set_option(l, key, value) == l
        }),
{
    let p = key + ":"@;
    let kv = key + ":"@ + value;
    assert(kv.subrange(0, p.len() as int) =~= p);
    assert(starts_with(kv, p));
    lemma_first_with_prefix_found(lines, p);
    let l = set_option(lines, key, value);
    match first_with_prefix(lines, p) {
        Some(i) => {
            assert forall|j: int| 0 <= j < i implies !starts_with(#[trigger] l[j], p) by {
                assert(l[j] == lines[j]);
            }
            lemma_first_with_prefix_at(l, p, i);
            assert(l.update(i, kv) =~= l);
        },
        None => {
            assert forall|j: int| 0 <= j < lines.len() implies !starts_with(#[trigger] l[j], p) by {
                assert(l[j] == lines[j]);
            }
            lemma_first_with_prefix_at(l, p, lines.len() as int);
            assert(l.update(lines.len() as int, kv) =~= l);
        },
    }
}

/// `key:value` set in the lines of options.txt (see `set_option`).
pub fn set_option_in(lines: &mut Vec<String>, key: &str, value: &str)
    ensures
        names_view(final(lines)@) == set_option(names_view(old(lines)@), key@, value@),
{
    let ghost ls = names_view(lines@);
    let mut prefix = key.to_owned();
    prefix.append(":");
    let mut line = prefix.clone();
    line.append(value);
    let mut i: usize = 0;
    while i < lines.len()
        invariant
            i <= lines@.len(),
            ls == names_view(lines@),
            ls == names_view(old(lines)@),
            prefix@ == key@ + ":"@,
            line@ == key@ + ":"@ + value@,
            forall|j: int| 0 <= j < i ==> !starts_with(#[trigger] ls[j], prefix@),
        decreases lines.len() - i,
    {
        assert(ls[i as int] == lines@[i as int]@);
        if starts_with_str(lines[i].as_str(), prefix.as_str()) {
            proof {
                lemma_first_with_prefix_at(ls, prefix@, i as int);
            }
            lines.set(i, line);
            assert(names_view(lines@) =~= ls.update(i as int, line@));
            return;
        }
        i = i + 1;
    }
    proof {
        lemma_first_with_prefix_none(ls, prefix@);
    }
    lines.push(line);
    assert(names_view(lines@) =~= ls.push(line@));
}

/// The lines not starting with `p`.
pub open spec fn drop_prefixed(lines: Seq<Seq<char>>, p: Seq<char>) -> Seq<Seq<char>>
    decreases lines.len(),
{
    if lines.len() == 0 {
        Seq::empty()
    } else if starts_with(lines.last(), p) {
        drop_prefixed(lines.drop_last(), p)
    } else {
        drop_prefixed(lines.drop_last(), p).push(lines.last())
    }
}

/// The options set once per installation: each `key:value`, in turn, drops
/// the lines starting with `key:` and is added last.
pub open spec fn once_options(lines: Seq<Seq<char>>, options: Seq<(String, String)>) -> Seq<Seq<char>>
    decreases options.len(),
{
    if options.len() == 0 {
        lines
    } else {
        let (k, v) = options.last();
        drop_prefixed(once_options(lines, options.drop_last()), k@ + ":"@).push(k@ + ":"@ + v@)
    }
}

/// What posing the settings set once does, given the versions of them
/// already posed (`done`: options, files): whether the files are edited
/// (their version went up), whether the options are written (theirs went
/// up), and the versions posed afterwards.
pub open spec fn spec_once_plan(version: u32, files_version: u32, done: (u32, u32)) -> (bool, bool, (u32, u32)) {
    (
        files_version > done.1,
        version > done.0,
        (if version > done.0 { version } else { done.0 }, if files_version > done.1 { files_version } else { done.1 }),
    )
}

/// See `spec_once_plan`.
pub fn once_plan(version: u32, files_version: u32, done: (u32, u32)) -> (r: (bool, bool, (u32, u32)))
    ensures
        r == spec_once_plan(version, files_version, done),
{
    let files = files_version > done.1;
    let options = version > done.0;
    let v = if options { version } else { done.0 };
    let fv = if files { files_version } else { done.1 };
    (files, options, (v, fv))
}

/// Settings set once are posed once: with the versions that posing them
/// returned, posing them again does nothing and keeps those versions.
pub proof fn lemma_once_only_once(version: u32, files_version: u32, done: (u32, u32))
    ensures
        ({
            let after = spec_once_plan(version, files_version, done).2;
            spec_once_plan(version, files_version, after) == (false, false, after)
        }),
{
}

/// options.txt once the options set once are posed.
pub fn apply_once_options(text: &str, options: &Vec<(String, String)>) -> (r: String)
    ensures
        r@ == join_lines(once_options(crate::text::spec_lines(text@), options@)),
{
    let mut lines = crate::text::lines_of(text);
    assert(names_view(lines@) =~= crate::text::strings_of(lines@));
    let ghost l0 = names_view(lines@);
    let mut i: usize = 0;
    while i < options.len()
        invariant
            i <= options@.len(),
            names_view(lines@) == once_options(l0, options@.take(i as int)),
        decreases options.len() - i,
    {
        let ghost t = options@.take(i + 1);
        assert(t.drop_last() =~= options@.take(i as int));
        assert(t.last() == options@[i as int]);
        let mut prefix = options[i].0.clone();
        prefix.append(":");
        let ghost before = names_view(lines@);
        let mut kept: Vec<String> = Vec::new();
        let mut j: usize = 0;
        while j < lines.len()
            invariant
                j <= lines@.len(),
                before == names_view(lines@),
                names_view(kept@) == drop_prefixed(before.take(j as int), prefix@),
            decreases lines.len() - j,
        {
            let ghost tj = before.take(j + 1);
            assert(tj.drop_last() =~= before.take(j as int));
            assert(tj.last() == lines@[j as int]@);
            if !starts_with_str(lines[j].as_str(), prefix.as_str()) {
                let ghost k0 = kept@;
                let x = lines[j].clone();
                kept.push(x);
                assert(names_view(kept@) =~= names_view(k0).push(x@));
            }
            j = j + 1;
        }
        assert(before.take(before.len() as int) =~= before);
        let mut line = prefix;
        line.append(options[i].1.as_str());
        let ghost k1 = kept@;
        kept.push(line);
        assert(names_view(kept@) =~= names_view(k1).push(line@));
        lines = kept;
        i = i + 1;
    }
    assert(options@.take(options@.len() as int) =~= options@);
    join_lines_exec(&lines)
}

// ─── Resource packs in options.txt ──────────────────────────────────────────

/// How one character is written inside a JSON string (as `serde_json`
/// writes it): `"` and `\` escaped, the control characters below 0x20
/// written `\b \t \n \f \r` or `\u00XX`, every other character as it is.
pub open spec fn json_char(c: char) -> Seq<char> {
    if c == '"' {
        seq!['\\', '"']
    } else if c == '\\' {
        seq!['\\', '\\']
    } else if c == '\u{8}' {
        seq!['\\', 'b']
    } else if c == '\t' {
        seq!['\\', 't']
    } else if c == '\n' {
        seq!['\\', 'n']
    } else if c == '\u{c}' {
        seq!['\\', 'f']
    } else if c == '\r' {
        seq!['\\', 'r']
    } else if (c as u32) < 0x20 {
        seq!['\\', 'u', '0', '0', crate::net::hex_digit(((c as u32) / 16) as u8), crate::net::hex_digit(((c as u32) % 16) as u8)]
    } else {
        seq![c]
    }
}

/// The inside of a JSON string.
pub open spec fn json_escaped(s: Seq<char>) -> Seq<char>
    decreases s.len(),
{
    if s.len() == 0 {
        Seq::empty()
    } else {
        json_escaped(s.drop_last()) + json_char(s.last())
    }
}

/// The elements of a JSON array of strings, separated by commas.
pub open spec fn json_elements(v: Seq<Seq<char>>) -> Seq<char>
    decreases v.len(),
{
    if v.len() == 0 {
        Seq::empty()
    } else if v.len() == 1 {
        "\""@ + json_escaped(v[0]) + "\""@
    } else {
        json_elements(v.drop_last()) + ","@ + "\""@ + json_escaped(v.last()) + "\""@
    }
}

/// A list of strings as compact JSON.
pub open spec fn json_strings(v: Seq<Seq<char>>) -> Seq<char> {
    "["@ + json_elements(v) + "]"@
}

/// `serde_json::to_string` of a list of strings: compact JSON, written as
/// `serde_json`'s compact formatter writes arrays and strings
/// (`json_strings`). Trusted to do so.
#[verifier::external_body]
fn to_json_strings(v: &Vec<String>) -> (s: String)
    ensures
        s@ == json_strings(names_view(v@)),
{
    serde_json::to_string(v).unwrap_or_default()
}

/// The list of strings a JSON text holds, if it is one (computed by
/// `serde_json::from_str::<Vec<String>>`).
pub uninterp spec fn json_string_list(text: Seq<char>) -> Option<Seq<Seq<char>>>;

/// `serde_json::from_str::<Vec<String>>(text).ok()`. Trusted: the result is
/// only named (`json_string_list`).
#[verifier::external_body]
fn parse_string_list(text: &str) -> (r: Option<Vec<String>>)
    ensures
        match json_string_list(text@) {
            Some(l) => (r matches Some(v) && names_view(v@) == l),
            None => r is None,
        },
{
    serde_json::from_str::<Vec<String>>(text).ok()
}

/// The lines of options.txt with each option of `values` set, in turn.
pub open spec fn set_options_lines(lines: Seq<Seq<char>>, values: Seq<(String, String)>) -> Seq<Seq<char>>
    decreases values.len(),
{
    if values.len() == 0 {
        lines
    } else {
        set_option(set_options_lines(lines, values.drop_last()), values.last().0@, values.last().1@)
    }
}

/// The resource packs options.txt lists (its first `resourcePacks:` line),
/// or the game's own two when it lists none that can be read.
pub open spec fn current_packs(lines: Seq<Seq<char>>) -> Seq<Seq<char>> {
    match first_with_prefix(lines, "resourcePacks:"@) {
        Some(i) => match json_string_list(lines[i].subrange(14, lines[i].len() as int)) {
            Some(l) => l,
            None => seq!["vanilla"@, "mod_resources"@],
        },
        None => seq!["vanilla"@, "mod_resources"@],
    }
}

/// The packs of `packs` the launcher does not manage, in their order.
pub open spec fn unmanaged(packs: Seq<Seq<char>>, managed: Seq<String>) -> Seq<Seq<char>>
    decreases packs.len(),
{
    if packs.len() == 0 {
        Seq::empty()
    } else if crate::packwiz::holds(managed, packs.last()) {
        unmanaged(packs.drop_last(), managed)
    } else {
        unmanaged(packs.drop_last(), managed).push(packs.last())
    }
}

/// options.txt with the options of `values` set, and its resource packs:
/// those the launcher does not manage, in their order, then `wanted`.
/// Created if it does not exist yet (Minecraft completes the missing keys).
pub open spec fn spec_set_options(text: Seq<char>, values: Seq<(String, String)>, managed: Seq<String>, wanted: Seq<String>) -> Seq<char> {
    let lines = crate::text::spec_lines(text);
    let packs = unmanaged(current_packs(lines), managed) + names_view(wanted);
    join_lines(set_option(set_options_lines(lines, values), "resourcePacks"@, json_strings(packs)))
}

pub fn set_options(text: &str, values: &Vec<(String, String)>, managed: &Vec<String>, wanted: &Vec<String>) -> (r: String)
    ensures
        r@ == spec_set_options(text@, values@, managed@, wanted@),
{
    let given = crate::text::lines_of(text);
    let ghost l0 = names_view(given@);
    assert(l0 =~= crate::text::strings_of(given@));
    let mut lines = crate::text::lines_of(text);
    assert(names_view(lines@) =~= crate::text::strings_of(lines@));
    let mut i: usize = 0;
    while i < values.len()
        invariant
            i <= values@.len(),
            names_view(lines@) == set_options_lines(l0, values@.take(i as int)),
        decreases values.len() - i,
    {
        let ghost t = values@.take(i + 1);
        assert(t.drop_last() =~= values@.take(i as int));
        assert(t.last() == values@[i as int]);
        set_option_in(&mut lines, values[i].0.as_str(), values[i].1.as_str());
        i = i + 1;
    }
    assert(values@.take(values@.len() as int) =~= values@);
    proof {
        reveal_strlit("resourcePacks:");
    }
    let mut current: Option<Vec<String>> = None;
    let mut found = false;
    let mut j: usize = 0;
    while j < given.len() && !found
        invariant
            j <= given@.len(),
            l0 == names_view(given@),
            "resourcePacks:"@.len() == 14,
            !found ==> forall|m: int| 0 <= m < j ==> !starts_with(#[trigger] l0[m], "resourcePacks:"@),
            !found ==> current is None,
            found ==> (first_with_prefix(l0, "resourcePacks:"@) matches Some(k) && match json_string_list(
                l0[k].subrange(14, l0[k].len() as int),
            ) {
                Some(l) => (current matches Some(v) && names_view(v@) == l),
                None => current is None,
            }),
        decreases given.len() - j,
    {
        assert(l0[j as int] == given@[j as int]@);
        if starts_with_str(given[j].as_str(), "resourcePacks:") {
            proof {
                lemma_first_with_prefix_at(l0, "resourcePacks:"@, j as int);
            }
            let v = to_chars(given[j].as_str());
            let rest = crate::text::string_of(v.as_slice(), 14, v.len());
            current = parse_string_list(rest.as_str());
            found = true;
        }
        j = j + 1;
    }
    proof {
        if !found {
            lemma_first_with_prefix_none(l0, "resourcePacks:"@);
        }
    }
    let current = match current {
        Some(c) => c,
        None => {
            let mut d: Vec<String> = Vec::new();
            d.push("vanilla".to_owned());
            d.push("mod_resources".to_owned());
            assert(names_view(d@) =~= seq!["vanilla"@, "mod_resources"@]);
            d
        },
    };
    assert(names_view(current@) == current_packs(l0));
    let mut packs: Vec<String> = Vec::new();
    let mut k: usize = 0;
    while k < current.len()
        invariant
            k <= current@.len(),
            names_view(packs@) == unmanaged(names_view(current@).take(k as int), managed@),
        decreases current.len() - k,
    {
        let ghost tk = names_view(current@).take(k + 1);
        assert(tk.drop_last() =~= names_view(current@).take(k as int));
        assert(tk.last() == current@[k as int]@);
        if !names_hold(managed, current[k].as_str()) {
            let ghost p0 = packs@;
            let x = current[k].clone();
            packs.push(x);
            assert(names_view(packs@) =~= names_view(p0).push(x@));
        }
        k = k + 1;
    }
    assert(names_view(current@).take(current@.len() as int) =~= names_view(current@));
    let ghost kept = names_view(packs@);
    let mut w: usize = 0;
    while w < wanted.len()
        invariant
            w <= wanted@.len(),
            names_view(packs@) == kept + names_view(wanted@).take(w as int),
        decreases wanted.len() - w,
    {
        let ghost p0 = packs@;
        let x = wanted[w].clone();
        packs.push(x);
        assert(names_view(packs@) =~= names_view(p0).push(x@));
        assert(names_view(wanted@).take(w + 1) =~= names_view(wanted@).take(w as int).push(wanted@[w as int]@));
        w = w + 1;
    }
    assert(names_view(wanted@).take(wanted@.len() as int) =~= names_view(wanted@));
    let json = to_json_strings(&packs);
    set_option_in(&mut lines, "resourcePacks", json.as_str());
    join_lines_exec(&lines)
}

// ─── Optional mods ──────────────────────────────────────────────────────────

/// Every file of every optional group.
pub open spec fn in_some_group(groups: Seq<(String, Vec<String>)>, s: Seq<char>) -> bool {
    exists|i: int| 0 <= i < groups.len() && crate::packwiz::holds((#[trigger] groups[i]).1@, s)
}

/// The files of all the optional groups.
pub fn all_optional(groups: &Vec<(String, Vec<String>)>) -> (r: Vec<String>)
    ensures
        forall|s: Seq<char>| #![trigger crate::packwiz::holds(r@, s)]
            crate::packwiz::holds(r@, s) <==> in_some_group(groups@, s),
{
    let mut r: Vec<String> = Vec::new();
    let mut i: usize = 0;
    while i < groups.len()
        invariant
            i <= groups@.len(),
            forall|s: Seq<char>| #![trigger crate::packwiz::holds(r@, s)]
                crate::packwiz::holds(r@, s) <==> in_some_group(groups@.take(i as int), s),
        decreases groups.len() - i,
    {
        let files = &groups[i].1;
        let ghost r0 = r@;
        let mut j: usize = 0;
        while j < files.len()
            invariant
                j <= files@.len(),
                forall|s: Seq<char>| #![trigger crate::packwiz::holds(r@, s)]
                    crate::packwiz::holds(r@, s) <==> (crate::packwiz::holds(r0, s) || crate::packwiz::holds(files@.take(j as int), s)),
            decreases files.len() - j,
        {
            let ghost r1 = r@;
            let x = files[j].clone();
            r.push(x);
            proof {
                assert forall|s: Seq<char>| #![trigger crate::packwiz::holds(r@, s)]
                    crate::packwiz::holds(r@, s) <==> (crate::packwiz::holds(r0, s) || crate::packwiz::holds(files@.take(j + 1), s)) by {
                    let tj = files@.take(j + 1);
                    if crate::packwiz::holds(r@, s) {
                        let w = choose|w: int| 0 <= w < r@.len() && (#[trigger] r@[w])@ == s;
                        if w < r1.len() {
                            assert(r1[w] == r@[w]);
                        } else {
                            assert(tj[j as int]@ == s);
                        }
                    }
                    if crate::packwiz::holds(r1, s) {
                        let w = choose|w: int| 0 <= w < r1.len() && (#[trigger] r1[w])@ == s;
                        assert(r@[w] == r1[w]);
                    }
                    if crate::packwiz::holds(tj, s) {
                        let w = choose|w: int| 0 <= w < tj.len() && (#[trigger] tj[w])@ == s;
                        if w < j {
                            assert(files@.take(j as int)[w] == tj[w]);
                        } else {
                            assert(r@[r@.len() - 1] == x);
                        }
                    }
                    if crate::packwiz::holds(files@.take(j as int), s) {
                        let w = choose|w: int| 0 <= w < j && (#[trigger] files@.take(j as int)[w])@ == s;
                        assert(tj[w] == files@.take(j as int)[w]);
                    }
                }
            }
            j = j + 1;
        }
        proof {
            assert(files@.take(files@.len() as int) =~= files@);
            let ti = groups@.take(i + 1);
            assert forall|s: Seq<char>| #![trigger crate::packwiz::holds(r@, s)]
                crate::packwiz::holds(r@, s) <==> in_some_group(ti, s) by {
                if in_some_group(ti, s) {
                    let w = choose|w: int| 0 <= w < ti.len() && crate::packwiz::holds((#[trigger] ti[w]).1@, s);
                    if w < i {
                        assert(groups@.take(i as int)[w] == ti[w]);
                    }
                }
                if in_some_group(groups@.take(i as int), s) {
                    let w = choose|w: int| 0 <= w < i && crate::packwiz::holds((#[trigger] groups@.take(i as int)[w]).1@, s);
                    assert(ti[w] == groups@.take(i as int)[w]);
                }
                if crate::packwiz::holds(files@, s) {
                    assert(ti[i as int] == groups@[i as int]);
                }
            }
        }
        i = i + 1;
    }
    assert(groups@.take(groups@.len() as int) =~= groups@);
    r
}

/// A file of one of the groups of `enabled`.
pub open spec fn in_enabled_group(groups: Seq<(String, Vec<String>)>, enabled: Seq<String>, s: Seq<char>) -> bool {
    exists|i: int| 0 <= i < enabled.len() && (lookup(pairs_view(groups), (#[trigger] enabled[i])@) matches Some(files)
        && crate::packwiz::holds(files@, s))
}

/// The files of the enabled optional groups.
pub fn enabled_optional(groups: &Vec<(String, Vec<String>)>, enabled: &Vec<String>) -> (r: Vec<String>)
    ensures
        forall|s: Seq<char>| #![trigger crate::packwiz::holds(r@, s)]
            crate::packwiz::holds(r@, s) <==> in_enabled_group(groups@, enabled@, s),
{
    let mut r: Vec<String> = Vec::new();
    let mut i: usize = 0;
    while i < enabled.len()
        invariant
            i <= enabled@.len(),
            forall|s: Seq<char>| #![trigger crate::packwiz::holds(r@, s)]
                crate::packwiz::holds(r@, s) <==> in_enabled_group(groups@, enabled@.take(i as int), s),
        decreases enabled.len() - i,
    {
        let ghost r0 = r@;
        let ghost ti = enabled@.take(i + 1);
        match find_key(groups, enabled[i].as_str()) {
            Some(gi) => {
                let files = &groups[gi].1;
                let mut j: usize = 0;
                while j < files.len()
                    invariant
                        j <= files@.len(),
                        forall|s: Seq<char>| #![trigger crate::packwiz::holds(r@, s)]
                            crate::packwiz::holds(r@, s) <==> (crate::packwiz::holds(r0, s) || crate::packwiz::holds(files@.take(j as int), s)),
                    decreases files.len() - j,
                {
                    let ghost r1 = r@;
                    let x = files[j].clone();
                    r.push(x);
                    proof {
                        assert forall|s: Seq<char>| #![trigger crate::packwiz::holds(r@, s)]
                            crate::packwiz::holds(r@, s) <==> (crate::packwiz::holds(r0, s) || crate::packwiz::holds(files@.take(j + 1), s)) by {
                            let tj = files@.take(j + 1);
                            if crate::packwiz::holds(r@, s) {
                                let w = choose|w: int| 0 <= w < r@.len() && (#[trigger] r@[w])@ == s;
                                if w < r1.len() {
                                    assert(r1[w] == r@[w]);
                                } else {
                                    assert(tj[j as int]@ == s);
                                }
                            }
                            if crate::packwiz::holds(r1, s) {
                                let w = choose|w: int| 0 <= w < r1.len() && (#[trigger] r1[w])@ == s;
                                assert(r@[w] == r1[w]);
                            }
                            if crate::packwiz::holds(tj, s) {
                                let w = choose|w: int| 0 <= w < tj.len() && (#[trigger] tj[w])@ == s;
                                if w < j {
                                    assert(files@.take(j as int)[w] == tj[w]);
                                } else {
                                    assert(r@[r@.len() - 1] == x);
                                }
                            }
                            if crate::packwiz::holds(files@.take(j as int), s) {
                                let w = choose|w: int| 0 <= w < j && (#[trigger] files@.take(j as int)[w])@ == s;
                                assert(tj[w] == files@.take(j as int)[w]);
                            }
                        }
                    }
                    j = j + 1;
                }
                proof {
                    assert(files@.take(files@.len() as int) =~= files@);
                }
            },
            None => {},
        }
        proof {
            assert forall|s: Seq<char>| #![trigger crate::packwiz::holds(r@, s)]
                crate::packwiz::holds(r@, s) <==> in_enabled_group(groups@, ti, s) by {
                if in_enabled_group(groups@, ti, s) {
                    let w = choose|w: int| 0 <= w < ti.len() && (lookup(pairs_view(groups@), (#[trigger] ti[w])@) matches Some(files)
                        && crate::packwiz::holds(files@, s));
                    if w < i {
                        assert(enabled@.take(i as int)[w] == ti[w]);
                    }
                }
                if in_enabled_group(groups@, enabled@.take(i as int), s) {
                    let w = choose|w: int| 0 <= w < i && (lookup(pairs_view(groups@), (#[trigger] enabled@.take(i as int)[w])@) matches Some(files)
                        && crate::packwiz::holds(files@, s));
                    assert(ti[w] == enabled@.take(i as int)[w]);
                }
                assert(ti[i as int] == enabled@[i as int]);
            }
        }
        i = i + 1;
    }
    assert(enabled@.take(enabled@.len() as int) =~= enabled@);
    r
}

/// Whether `resolve` can be asked: the preset the choices start from
/// exists, there is one answer per rule, and every slider's bounds make
/// sense.
pub fn can_resolve(m: &PresetsModel, c: &Choices, detected: &str, holds: &Vec<bool>) -> (r: bool)
    ensures
        r == (lookup(pairs_view(m.presets@), spec_base(*c, detected@, *m)) is Some && holds@.len() == m.adapt@.len()
            && sliders_well_formed(*m)),
{
    let base = base_of(c, detected, m);
    if find_key(&m.presets, base.as_str()).is_none() || holds.len() != m.adapt.len() {
        return false;
    }
    let mut i: usize = 0;
    while i < m.sliders.len()
        invariant
            i <= m.sliders@.len(),
            forall|j: int| 0 <= j < i ==> (#[trigger] m.sliders@[j]).1.min <= m.sliders@[j].1.max,
        decreases m.sliders.len() - i,
    {
        if m.sliders[i].1.min > m.sliders[i].1.max {
            return false;
        }
        i = i + 1;
    }
    true
}

// ─── Laws of resolving ──────────────────────────────────────────────────────

proof fn lemma_lookup_in<V>(s: Seq<(String, V)>, k: Seq<char>)
    requires
        lookup(pairs_view(s), k) is Some,
    ensures
        exists|i: int| 0 <= i < s.len() && (#[trigger] s[i]).1 == lookup(pairs_view(s), k)->0 && s[i].0@ == k,
    decreases s.len(),
{
    let v = pairs_view(s);
    if v.last().0 == k {
        assert(s[s.len() - 1].1 == v.last().1);
    } else {
        assert(pairs_view(s.drop_last()) =~= v.drop_last());
        lemma_lookup_in(s.drop_last(), k);
        let i = choose|i: int| 0 <= i < s.drop_last().len() && (#[trigger] s.drop_last()[i]).1 == lookup(pairs_view(s.drop_last()), k)->0
            && s.drop_last()[i].0@ == k;
        assert(s[i] == s.drop_last()[i]);
    }
}

proof fn lemma_adv_toggle_known(m: PresetsModel, p: PresetSettings, base: Seq<char>, holds: Seq<bool>, k: Seq<char>, j: int)
    requires
        lookup(pairs_view(m.toggles@), k) is Some,
    ensures
        adv_toggle(m, p, base, holds, k, j) is Some,
    decreases j,
{
    if j > 0 {
        lemma_adv_toggle_known(m, p, base, holds, k, j - 1);
    }
}

/// A game option the player set keeps the player's value, whatever the
/// preset and the automatic adjustments advise.
pub proof fn lemma_player_toggle_wins(m: PresetsModel, p: PresetSettings, base: Seq<char>, holds: Seq<bool>, c: Choices, k: Seq<char>, u: bool)
    requires
        lookup(pairs_view(m.toggles@), k) is Some,
        lookup(pairs_view(c.toggles@), k) == Some(u),
    ensures
        final_toggle(m, p, base, holds, c, k) == Some(u),
{
    lemma_adv_toggle_known(m, p, base, holds, k, m.adapt@.len() as int);
}

/// Every slider's value lies within its bounds.
pub proof fn lemma_slider_within_bounds(m: PresetsModel, p: PresetSettings, base: Seq<char>, holds: Seq<bool>, hz: Option<u32>, h: Option<u32>, c: Choices, k: Seq<char>)
    requires
        sliders_well_formed(m),
        lookup(pairs_view(m.sliders@), k) is Some,
    ensures
        final_slider(m, p, base, holds, hz, h, c, k) matches Some(v) && lookup(pairs_view(m.sliders@), k)->0.min <= v
            <= lookup(pairs_view(m.sliders@), k)->0.max,
{
    lemma_lookup_in(m.sliders@, k);
}

/// A slider the player set within its bounds keeps the player's value.
pub proof fn lemma_player_slider_wins(m: PresetsModel, p: PresetSettings, base: Seq<char>, holds: Seq<bool>, hz: Option<u32>, h: Option<u32>, c: Choices, k: Seq<char>, u: i64)
    requires
        lookup(pairs_view(m.sliders@), k) matches Some(sl) && sl.min <= u <= sl.max,
        lookup(pairs_view(c.sliders@), k) == Some(u),
    ensures
        final_slider(m, p, base, holds, hz, h, c, k) == Some(u),
{
}

proof fn lemma_without_contains(gs: Seq<Seq<char>>, g: Seq<char>, x: Seq<char>)
    ensures
        without(gs, g).contains(x) == (gs.contains(x) && x != g),
    decreases gs.len(),
{
    if gs.len() > 0 {
        let p = gs.drop_last();
        let wp = without(p, g);
        let w = without(gs, g);
        lemma_without_contains(p, g, x);
        assert(gs.contains(x) == (p.contains(x) || gs.last() == x)) by {
            if gs.contains(x) {
                let i = choose|i: int| 0 <= i < gs.len() && gs[i] == x;
                if i < gs.len() - 1 {
                    assert(p[i] == x);
                }
            }
            if p.contains(x) {
                let i = choose|i: int| 0 <= i < p.len() && p[i] == x;
                assert(gs[i] == x);
            }
            if gs.last() == x {
                assert(gs[gs.len() - 1] == x);
            }
        }
        if gs.last() != g {
            assert(w == wp.push(gs.last()));
            assert(w.contains(x) == (wp.contains(x) || gs.last() == x)) by {
                if w.contains(x) {
                    let i = choose|i: int| 0 <= i < w.len() && w[i] == x;
                    if i < wp.len() {
                        assert(wp[i] == x);
                    }
                }
                if wp.contains(x) {
                    let i = choose|i: int| 0 <= i < wp.len() && wp[i] == x;
                    assert(w[i] == x);
                }
                if gs.last() == x {
                    assert(w[wp.len() as int] == x);
                }
            }
        }
    }
}

/// After the mods chosen one by one, a group the player chose is there
/// exactly when the player turned it on (the last choice for it counts).
pub proof fn lemma_mod_choice_wins(gs: Seq<Seq<char>>, mods: Seq<(String, bool)>, g: Seq<char>, on: bool)
    requires
        lookup(pairs_view(mods), g) == Some(on),
    ensures
        mod_groups(gs, mods).contains(g) == on,
    decreases mods.len(),
{
    let prev = mod_groups(gs, mods.drop_last());
    lemma_without_contains(prev, mods.last().0@, g);
    if mods.last().0@ == g {
        if on {
            assert(mod_groups(gs, mods).last() == g);
        }
    } else {
        assert(pairs_view(mods.drop_last()) =~= pairs_view(mods).drop_last());
        lemma_mod_choice_wins(gs, mods.drop_last(), g, on);
        if mod_groups(gs, mods).contains(g) && !without(prev, mods.last().0@).contains(g) {
            let i = choose|i: int| 0 <= i < mod_groups(gs, mods).len() && mod_groups(gs, mods)[i] == g;
            if mods.last().1 {
                assert(i == mod_groups(gs, mods).len() - 1);
            }
        }
        if !mod_groups(gs, mods).contains(g) && without(prev, mods.last().0@).contains(g) {
            let i = choose|i: int| 0 <= i < without(prev, mods.last().0@).len() && without(prev, mods.last().0@)[i] == g;
            assert(mod_groups(gs, mods)[i] == g);
        }
    }
}

// ─── What the settings write ────────────────────────────────────────────────

/// The lines of options.txt a game option writes at its value (`rt`: the
/// resolved game options; its default when it has none).
pub open spec fn toggle_extra(t: (String, ToggleSettings), rt: Seq<(Seq<char>, bool)>) -> Seq<(Seq<char>, Seq<char>)> {
    let on = match lookup(rt, t.0@) {
        Some(b) => b,
        None => t.1.default,
    };
    if on {
        texts_view(t.1.options@)
    } else {
        match t.1.off {
            Some(o) => texts_view(o.options@),
            None => Seq::empty(),
        }
    }
}

/// The lines of options.txt the game options write, one after the other.
pub open spec fn toggle_options(toggles: Seq<(String, ToggleSettings)>, rt: Seq<(Seq<char>, bool)>) -> Seq<(Seq<char>, Seq<char>)>
    decreases toggles.len(),
{
    if toggles.len() == 0 {
        Seq::empty()
    } else {
        toggle_options(toggles.drop_last(), rt) + toggle_extra(toggles.last(), rt)
    }
}

/// A slider counts unless the game option it needs is not on.
pub open spec fn slider_active(sl: Slider, rt: Seq<(Seq<char>, bool)>) -> bool {
    match sl.requires {
        None => true,
        Some(t) => lookup(rt, t@) == Some(true),
    }
}

/// The line of options.txt a slider writes: its option, at its resolved
/// value, when it has both and counts.
pub open spec fn slider_extra(s: (String, Slider), rt: Seq<(Seq<char>, bool)>, rs: Seq<(Seq<char>, i64)>) -> Seq<(Seq<char>, Seq<char>)> {
    if s.1.option is Some && lookup(rs, s.0@) is Some && slider_active(s.1, rt) {
        seq![(s.1.option->0@, spec_signed_decimal(lookup(rs, s.0@)->0 as int))]
    } else {
        Seq::empty()
    }
}

/// The lines of options.txt the sliders write, one after the other.
pub open spec fn slider_options(sliders: Seq<(String, Slider)>, rt: Seq<(Seq<char>, bool)>, rs: Seq<(Seq<char>, i64)>) -> Seq<(Seq<char>, Seq<char>)>
    decreases sliders.len(),
{
    if sliders.len() == 0 {
        Seq::empty()
    } else {
        slider_options(sliders.drop_last(), rt, rs) + slider_extra(sliders.last(), rt, rs)
    }
}

/// The options a resolution writes in options.txt, in order: the preset's,
/// then the game options', then the sliders'. A later line for a key
/// replaces an earlier one.
pub open spec fn spec_game_options(m: PresetsModel, p: PresetSettings, r: Resolution) -> Seq<(Seq<char>, Seq<char>)> {
    texts_view(p.options@) + toggle_options(m.toggles@, pairs_view(r.toggles@)) + slider_options(
        m.sliders@,
        pairs_view(r.toggles@),
        pairs_view(r.sliders@),
    )
}

fn append_texts(out: &mut Vec<(String, String)>, v: &Vec<(String, String)>)
    ensures
        texts_view(final(out)@) == texts_view(old(out)@) + texts_view(v@),
{
    let ghost start = texts_view(out@);
    let mut i: usize = 0;
    while i < v.len()
        invariant
            i <= v@.len(),
            texts_view(out@) == start + texts_view(v@).take(i as int),
        decreases v.len() - i,
    {
        let ghost before = out@;
        let k = v[i].0.clone();
        let x = v[i].1.clone();
        out.push((k, x));
        proof {
            lemma_texts_push(before, (k, x));
            assert(texts_view(v@).take(i + 1) =~= texts_view(v@).take(i as int).push((k@, x@)));
        }
        i = i + 1;
    }
    assert(texts_view(v@).take(v@.len() as int) =~= texts_view(v@));
}

fn lookup_value<V: Copy>(v: &Vec<(String, V)>, k: &str) -> (r: Option<V>)
    ensures
        r == lookup(pairs_view(v@), k@),
{
    match find_key(v, k) {
        Some(i) => Some(v[i].1),
        None => None,
    }
}

/// The options written in options.txt for a resolution;
/// `None` when its preset is unknown.
pub fn game_options(m: &PresetsModel, r: &Resolution) -> (out: Option<Vec<(String, String)>>)
    ensures
        match lookup(pairs_view(m.presets@), r.preset@) {
            None => out is None,
            Some(p) => (out matches Some(v) && texts_view(v@) == spec_game_options(*m, p, *r)),
        },
{
    let pi = match find_key(&m.presets, r.preset.as_str()) {
        Some(i) => i,
        None => return None,
    };
    let p = &m.presets[pi].1;
    let ghost rt = pairs_view(r.toggles@);
    let ghost rs = pairs_view(r.sliders@);
    let ghost a = texts_view(p.options@);
    let mut out: Vec<(String, String)> = Vec::new();
    append_texts(&mut out, &p.options);
    assert(texts_view(out@) =~= a);
    let mut i: usize = 0;
    while i < m.toggles.len()
        invariant
            i <= m.toggles@.len(),
            rt == pairs_view(r.toggles@),
            texts_view(out@) == a + toggle_options(m.toggles@.take(i as int), rt),
        decreases m.toggles.len() - i,
    {
        let ghost t = m.toggles@.take(i + 1);
        assert(t.drop_last() =~= m.toggles@.take(i as int));
        assert(t.last() == m.toggles@[i as int]);
        let ghost before = texts_view(out@);
        let on = match lookup_value(&r.toggles, m.toggles[i].0.as_str()) {
            Some(b) => b,
            None => m.toggles[i].1.default,
        };
        if on {
            append_texts(&mut out, &m.toggles[i].1.options);
        } else {
            match &m.toggles[i].1.off {
                Some(o) => append_texts(&mut out, &o.options),
                None => {},
            }
        }
        proof {
            let e = toggle_extra(m.toggles@[i as int], rt);
            assert(texts_view(out@) =~= before + e);
            assert(before + e =~= a + (toggle_options(m.toggles@.take(i as int), rt) + e));
        }
        i = i + 1;
    }
    assert(m.toggles@.take(m.toggles@.len() as int) =~= m.toggles@);
    let ghost b = a + toggle_options(m.toggles@, rt);
    let mut j: usize = 0;
    while j < m.sliders.len()
        invariant
            j <= m.sliders@.len(),
            rt == pairs_view(r.toggles@),
            rs == pairs_view(r.sliders@),
            texts_view(out@) == b + slider_options(m.sliders@.take(j as int), rt, rs),
        decreases m.sliders.len() - j,
    {
        let ghost t = m.sliders@.take(j + 1);
        assert(t.drop_last() =~= m.sliders@.take(j as int));
        assert(t.last() == m.sliders@[j as int]);
        let ghost before = out@;
        let sl = &m.sliders[j].1;
        if let Some(o) = &sl.option {
            if let Some(v) = lookup_value(&r.sliders, m.sliders[j].0.as_str()) {
                let active = match &sl.requires {
                    None => true,
                    Some(t) => lookup_value(&r.toggles, t.as_str()) == Some(true),
                };
                if active {
                    let k = o.clone();
                    let x = signed_decimal(v);
                    out.push((k, x));
                    proof {
                        lemma_texts_push(before, (k, x));
                    }
                }
            }
        }
        proof {
            let e = slider_extra(m.sliders@[j as int], rt, rs);
            assert(texts_view(out@) =~= texts_view(before) + e);
            assert(texts_view(before) + e =~= b + (slider_options(m.sliders@.take(j as int), rt, rs) + e));
        }
        j = j + 1;
    }
    assert(m.sliders@.take(m.sliders@.len() as int) =~= m.sliders@);
    Some(out)
}

// ─── Files the settings write ───────────────────────────────────────────────

/// The value of each game option for a resolution, in the model's order:
/// the resolved one, else its default. Its files on (`true`) or off are
/// written accordingly.
pub open spec fn spec_toggle_states(toggles: Seq<(String, ToggleSettings)>, rt: Seq<(Seq<char>, bool)>) -> Seq<bool> {
    Seq::new(
        toggles.len(),
        |i: int|
            match lookup(rt, toggles[i].0@) {
                Some(b) => b,
                None => toggles[i].1.default,
            },
    )
}

/// See `spec_toggle_states`.
pub fn toggle_states(m: &PresetsModel, r: &Resolution) -> (v: Vec<bool>)
    ensures
        v@ == spec_toggle_states(m.toggles@, pairs_view(r.toggles@)),
{
    let mut v: Vec<bool> = Vec::new();
    let mut i: usize = 0;
    while i < m.toggles.len()
        invariant
            i <= m.toggles@.len(),
            v@ == spec_toggle_states(m.toggles@, pairs_view(r.toggles@)).take(i as int),
        decreases m.toggles.len() - i,
    {
        let on = match lookup_value(&r.toggles, m.toggles[i].0.as_str()) {
            Some(b) => b,
            None => m.toggles[i].1.default,
        };
        v.push(on);
        assert(v@ =~= spec_toggle_states(m.toggles@, pairs_view(r.toggles@)).take(i + 1));
        i = i + 1;
    }
    assert(spec_toggle_states(m.toggles@, pairs_view(r.toggles@)).take(m.toggles@.len() as int) =~= spec_toggle_states(
        m.toggles@,
        pairs_view(r.toggles@),
    ));
    v
}

/// A key a slider writes in a file: the file, the key, the value, and the
/// file's format (`toml` when not given).
pub open spec fn slider_edit(s: (String, Slider), rt: Seq<(Seq<char>, bool)>, rs: Seq<(Seq<char>, i64)>) -> Seq<(Seq<char>, Seq<char>, i64, Seq<char>)> {
    if s.1.file is Some && s.1.key is Some && lookup(rs, s.0@) is Some && slider_active(s.1, rt) {
        seq![(
            s.1.file->0@,
            s.1.key->0@,
            lookup(rs, s.0@)->0,
            match s.1.format {
                Some(f) => f@,
                None => "toml"@,
            },
        )]
    } else {
        Seq::empty()
    }
}

/// The keys the sliders write in files, one slider after the other.
pub open spec fn slider_edits(sliders: Seq<(String, Slider)>, rt: Seq<(Seq<char>, bool)>, rs: Seq<(Seq<char>, i64)>) -> Seq<(Seq<char>, Seq<char>, i64, Seq<char>)>
    decreases sliders.len(),
{
    if sliders.len() == 0 {
        Seq::empty()
    } else {
        slider_edits(sliders.drop_last(), rt, rs) + slider_edit(sliders.last(), rt, rs)
    }
}

/// The view of a list of file edits.
pub open spec fn edits_view(v: Seq<(String, String, i64, String)>) -> Seq<(Seq<char>, Seq<char>, i64, Seq<char>)> {
    Seq::new(v.len(), |i: int| (v[i].0@, v[i].1@, v[i].2, v[i].3@))
}

/// The keys the sliders of a resolution write in files (see
/// `slider_edits`): each slider with a file and a key, at its resolved
/// value, when it counts.
pub fn slider_file_edits(m: &PresetsModel, r: &Resolution) -> (out: Vec<(String, String, i64, String)>)
    ensures
        edits_view(out@) == slider_edits(m.sliders@, pairs_view(r.toggles@), pairs_view(r.sliders@)),
{
    let ghost rt = pairs_view(r.toggles@);
    let ghost rs = pairs_view(r.sliders@);
    let mut out: Vec<(String, String, i64, String)> = Vec::new();
    let mut j: usize = 0;
    while j < m.sliders.len()
        invariant
            j <= m.sliders@.len(),
            rt == pairs_view(r.toggles@),
            rs == pairs_view(r.sliders@),
            edits_view(out@) == slider_edits(m.sliders@.take(j as int), rt, rs),
        decreases m.sliders.len() - j,
    {
        let ghost t = m.sliders@.take(j + 1);
        assert(t.drop_last() =~= m.sliders@.take(j as int));
        assert(t.last() == m.sliders@[j as int]);
        let ghost before = out@;
        let sl = &m.sliders[j].1;
        if let (Some(f), Some(k)) = (&sl.file, &sl.key) {
            if let Some(v) = lookup_value(&r.sliders, m.sliders[j].0.as_str()) {
                let active = match &sl.requires {
                    None => true,
                    Some(t) => lookup_value(&r.toggles, t.as_str()) == Some(true),
                };
                if active {
                    let format = match &sl.format {
                        Some(x) => x.clone(),
                        None => "toml".to_owned(),
                    };
                    out.push((f.clone(), k.clone(), v, format));
                }
            }
        }
        proof {
            let e = slider_edit(m.sliders@[j as int], rt, rs);
            assert(edits_view(out@) =~= edits_view(before) + e);
        }
        j = j + 1;
    }
    assert(m.sliders@.take(m.sliders@.len() as int) =~= m.sliders@);
    out
}

/// The last pair for a key in two lists put end to end: that of the second
/// list, else that of the first.
pub proof fn lemma_lookup_concat<V>(a: Seq<(Seq<char>, V)>, b: Seq<(Seq<char>, V)>, k: Seq<char>)
    ensures
        lookup(a + b, k) == match lookup(b, k) {
            Some(v) => Some(v),
            None => lookup(a, k),
        },
    decreases b.len(),
{
    if b.len() == 0 {
        assert(a + b =~= a);
    } else {
        assert((a + b).drop_last() =~= a + b.drop_last());
        assert((a + b).last() == b.last());
        lemma_lookup_concat(a, b.drop_last(), k);
    }
}

/// In options.txt the sliders have the last word, then the game options,
/// then the preset: the value written for an option is that of the last
/// slider writing it, else of the last game option writing it, else the
/// preset's.
pub proof fn lemma_game_options_last_word(m: PresetsModel, p: PresetSettings, r: Resolution, k: Seq<char>)
    ensures
        ({
            let rt = pairs_view(r.toggles@);
            let so = slider_options(m.sliders@, rt, pairs_view(r.sliders@));
            let to = toggle_options(m.toggles@, rt);
            lookup(spec_game_options(m, p, r), k) == match lookup(so, k) {
                Some(v) => Some(v),
                None => match lookup(to, k) {
                    Some(v) => Some(v),
                    None => lookup(texts_view(p.options@), k),
                },
            }
        }),
{
    let rt = pairs_view(r.toggles@);
    let so = slider_options(m.sliders@, rt, pairs_view(r.sliders@));
    let to = toggle_options(m.toggles@, rt);
    lemma_lookup_concat(texts_view(p.options@) + to, so, k);
    lemma_lookup_concat(texts_view(p.options@), to, k);
}

// ─── Files and resource packs the launcher manages ──────────────────────────

/// `dedup_strings` keeps exactly the strings of the list.
pub proof fn lemma_dedup_strings_contains(s: Seq<Seq<char>>, h: Seq<char>)
    ensures
        dedup_strings(s).contains(h) == s.contains(h),
    decreases s.len(),
{
    if s.len() > 0 {
        let p = s.drop_last();
        let d = dedup_strings(s);
        let dp = dedup_strings(p);
        lemma_dedup_strings_contains(p, h);
        assert(s.contains(h) == (p.contains(h) || s.last() == h)) by {
            if s.contains(h) {
                let i = choose|i: int| 0 <= i < s.len() && s[i] == h;
                if i < s.len() - 1 {
                    assert(p[i] == h);
                }
            }
            if p.contains(h) {
                let i = choose|i: int| 0 <= i < p.len() && p[i] == h;
                assert(s[i] == h);
            }
            if s.last() == h {
                assert(s[s.len() - 1] == h);
            }
        }
        if string_seen(s, s.len() - 1) {
            if s.last() == h {
                let j = choose|j: int| 0 <= j < s.len() - 1 && #[trigger] s[j] == s[s.len() - 1];
                assert(p[j] == h);
            }
        } else {
            assert(d == dp.push(s.last()));
            assert(d.contains(h) == (dp.contains(h) || s.last() == h)) by {
                if d.contains(h) {
                    let i = choose|i: int| 0 <= i < d.len() && d[i] == h;
                    if i < dp.len() {
                        assert(dp[i] == h);
                    }
                }
                if dp.contains(h) {
                    let i = choose|i: int| 0 <= i < dp.len() && dp[i] == h;
                    assert(d[i] == h);
                }
                if s.last() == h {
                    assert(d[dp.len() as int] == h);
                }
            }
        }
    }
}

proof fn lemma_names_push(v: Seq<String>, x: String)
    ensures
        names_view(v.push(x)) == names_view(v).push(x@),
{
    assert(names_view(v.push(x)) =~= names_view(v).push(x@));
}

/// `all` with each name kept at its first occurrence only.
fn dedup_names(all: &Vec<String>) -> (r: Vec<String>)
    ensures
        names_view(r@) == dedup_strings(names_view(all@)),
{
    let ghost ps = names_view(all@);
    let mut out: Vec<String> = Vec::new();
    let mut i: usize = 0;
    while i < all.len()
        invariant
            i <= all@.len(),
            ps == names_view(all@),
            names_view(out@) == dedup_strings(ps.take(i as int)),
        decreases all.len() - i,
    {
        let ghost t = ps.take(i + 1);
        assert(t.drop_last() =~= ps.take(i as int));
        assert(t.last() == ps[i as int]);
        let x = all[i].clone();
        proof {
            lemma_dedup_strings_contains(ps.take(i as int), x@);
            assert(crate::packwiz::holds(out@, x@) == names_view(out@).contains(x@)) by {
                if crate::packwiz::holds(out@, x@) {
                    let j = choose|j: int| 0 <= j < out@.len() && (#[trigger] out@[j])@ == x@;
                    assert(names_view(out@)[j] == x@);
                }
                if names_view(out@).contains(x@) {
                    let j = choose|j: int| 0 <= j < names_view(out@).len() && names_view(out@)[j] == x@;
                    assert(out@[j]@ == x@);
                }
            }
            assert(ps.take(i as int).contains(x@) == string_seen(t, i as int)) by {
                if ps.take(i as int).contains(x@) {
                    let j = choose|j: int| 0 <= j < i && ps.take(i as int)[j] == x@;
                    assert(t[j] == t[i as int]);
                }
                if string_seen(t, i as int) {
                    let j = choose|j: int| 0 <= j < i && #[trigger] t[j] == t[i as int];
                    assert(ps.take(i as int)[j] == x@);
                }
            }
        }
        if !names_hold(&out, x.as_str()) {
            let ghost before = out@;
            out.push(x);
            proof {
                lemma_names_push(before, x);
            }
        }
        i = i + 1;
    }
    assert(ps.take(ps.len() as int) =~= ps);
    out
}

fn append_names(out: &mut Vec<String>, v: &Vec<String>)
    ensures
        names_view(final(out)@) == names_view(old(out)@) + names_view(v@),
{
    let ghost start = names_view(out@);
    let mut i: usize = 0;
    while i < v.len()
        invariant
            i <= v@.len(),
            names_view(out@) == start + names_view(v@).take(i as int),
        decreases v.len() - i,
    {
        let ghost before = out@;
        let x = v[i].clone();
        out.push(x);
        proof {
            lemma_names_push(before, x);
            assert(names_view(v@).take(i + 1) =~= names_view(v@).take(i as int).push(x@));
        }
        i = i + 1;
    }
    assert(names_view(v@).take(v@.len() as int) =~= names_view(v@));
}

/// The resource packs of every preset, one preset after the other.
pub open spec fn all_packs(presets: Seq<(String, PresetSettings)>) -> Seq<Seq<char>>
    decreases presets.len(),
{
    if presets.len() == 0 {
        Seq::empty()
    } else {
        all_packs(presets.drop_last()) + names_view(presets.last().1.resource_packs@)
    }
}

/// The resource packs the launcher manages: those of every preset, each
/// once.
pub open spec fn spec_managed_packs(m: PresetsModel) -> Seq<Seq<char>> {
    dedup_strings(all_packs(m.presets@))
}

/// The resource packs of every preset, each once (first occurrence first).
pub fn managed_packs(m: &PresetsModel) -> (r: Vec<String>)
    ensures
        names_view(r@) == spec_managed_packs(*m),
{
    let mut all: Vec<String> = Vec::new();
    let mut i: usize = 0;
    while i < m.presets.len()
        invariant
            i <= m.presets@.len(),
            names_view(all@) == all_packs(m.presets@.take(i as int)),
        decreases m.presets.len() - i,
    {
        let ghost t = m.presets@.take(i + 1);
        assert(t.drop_last() =~= m.presets@.take(i as int));
        assert(t.last() == m.presets@[i as int]);
        append_names(&mut all, &m.presets[i].1.resource_packs);
        i = i + 1;
    }
    assert(m.presets@.take(m.presets@.len() as int) =~= m.presets@);
    dedup_names(&all)
}

/// The packs of `packs` that are wanted: those of the preset, or all of
/// them when the animations group is on.
pub open spec fn keep_wanted(packs: Seq<Seq<char>>, preset_packs: Seq<String>, animations: bool) -> Seq<Seq<char>>
    decreases packs.len(),
{
    if packs.len() == 0 {
        Seq::empty()
    } else if animations || crate::packwiz::holds(preset_packs, packs.last()) {
        keep_wanted(packs.drop_last(), preset_packs, animations).push(packs.last())
    } else {
        keep_wanted(packs.drop_last(), preset_packs, animations)
    }
}

/// The managed resource packs a resolution wants (those present on disk
/// are kept by the caller); `None` when its preset is unknown.
pub fn wanted_packs(m: &PresetsModel, r: &Resolution) -> (w: Option<Vec<String>>)
    ensures
        match lookup(pairs_view(m.presets@), r.preset@) {
            None => w is None,
            Some(p) => (w matches Some(v) && names_view(v@) == keep_wanted(
                spec_managed_packs(*m),
                p.resource_packs@,
                crate::packwiz::holds(r.groups@, "animations"@),
            )),
        },
{
    let pi = match find_key(&m.presets, r.preset.as_str()) {
        Some(i) => i,
        None => return None,
    };
    let p = &m.presets[pi].1;
    let managed = managed_packs(m);
    let animations = names_hold(&r.groups, "animations");
    let ghost ms = names_view(managed@);
    let mut out: Vec<String> = Vec::new();
    let mut i: usize = 0;
    while i < managed.len()
        invariant
            i <= managed@.len(),
            ms == names_view(managed@),
            names_view(out@) == keep_wanted(ms.take(i as int), p.resource_packs@, animations),
        decreases managed.len() - i,
    {
        let ghost t = ms.take(i + 1);
        assert(t.drop_last() =~= ms.take(i as int));
        assert(t.last() == managed@[i as int]@);
        if animations || names_hold(&p.resource_packs, managed[i].as_str()) {
            let ghost before = out@;
            let x = managed[i].clone();
            out.push(x);
            proof {
                lemma_names_push(before, x);
            }
        }
        i = i + 1;
    }
    assert(ms.take(ms.len() as int) =~= ms);
    Some(out)
}

/// The names of the files a preset edits.
pub open spec fn keys_view<V>(v: Seq<(String, V)>) -> Seq<Seq<char>> {
    Seq::new(v.len(), |i: int| v[i].0@)
}

/// The files the presets edit, one preset after the other.
pub open spec fn preset_files(presets: Seq<(String, PresetSettings)>) -> Seq<Seq<char>>
    decreases presets.len(),
{
    if presets.len() == 0 {
        Seq::empty()
    } else {
        preset_files(presets.drop_last()) + keys_view(presets.last().1.files@)
    }
}

/// The files a game option edits, on and off.
pub open spec fn toggle_files_of(t: ToggleSettings) -> Seq<Seq<char>> {
    names_view(t.files@) + match t.off {
        Some(o) => names_view(o.files@),
        None => Seq::empty(),
    }
}

/// The files the game options edit, one after the other.
pub open spec fn toggle_files(toggles: Seq<(String, ToggleSettings)>) -> Seq<Seq<char>>
    decreases toggles.len(),
{
    if toggles.len() == 0 {
        Seq::empty()
    } else {
        toggle_files(toggles.drop_last()) + toggle_files_of(toggles.last().1)
    }
}

/// The files the automatic adjustments edit, one rule after the other.
pub open spec fn rule_files(rules: Seq<AdaptRule>) -> Seq<Seq<char>>
    decreases rules.len(),
{
    if rules.len() == 0 {
        Seq::empty()
    } else {
        rule_files(rules.drop_last()) + names_view(rules.last().files@)
    }
}

/// The files the sliders write to.
pub open spec fn slider_files(sliders: Seq<(String, Slider)>) -> Seq<Seq<char>>
    decreases sliders.len(),
{
    if sliders.len() == 0 {
        Seq::empty()
    } else {
        slider_files(sliders.drop_last()) + match sliders.last().1.file {
            Some(f) => seq![f@],
            None => Seq::empty(),
        }
    }
}

/// The config files the launcher rewrites (presets, game options,
/// adjustments, sliders), each once. When the pack brings one of them, an
/// update of the pack may replace it, and the settings must be written
/// again.
pub open spec fn spec_managed_files(m: PresetsModel) -> Seq<Seq<char>> {
    dedup_strings(preset_files(m.presets@) + toggle_files(m.toggles@) + rule_files(m.adapt@) + slider_files(m.sliders@))
}

fn append_keys<V>(out: &mut Vec<String>, v: &Vec<(String, V)>)
    ensures
        names_view(final(out)@) == names_view(old(out)@) + keys_view(v@),
{
    let ghost start = names_view(out@);
    let mut i: usize = 0;
    while i < v.len()
        invariant
            i <= v@.len(),
            names_view(out@) == start + keys_view(v@).take(i as int),
        decreases v.len() - i,
    {
        let ghost before = out@;
        let x = v[i].0.clone();
        out.push(x);
        proof {
            lemma_names_push(before, x);
            assert(keys_view(v@).take(i + 1) =~= keys_view(v@).take(i as int).push(x@));
        }
        i = i + 1;
    }
    assert(keys_view(v@).take(v@.len() as int) =~= keys_view(v@));
}

/// The config files the launcher rewrites, each once.
pub fn managed_files(m: &PresetsModel) -> (r: Vec<String>)
    ensures
        names_view(r@) == spec_managed_files(*m),
{
    let mut all: Vec<String> = Vec::new();
    let mut i: usize = 0;
    while i < m.presets.len()
        invariant
            i <= m.presets@.len(),
            names_view(all@) == preset_files(m.presets@.take(i as int)),
        decreases m.presets.len() - i,
    {
        let ghost t = m.presets@.take(i + 1);
        assert(t.drop_last() =~= m.presets@.take(i as int));
        assert(t.last() == m.presets@[i as int]);
        append_keys(&mut all, &m.presets[i].1.files);
        i = i + 1;
    }
    assert(m.presets@.take(m.presets@.len() as int) =~= m.presets@);
    let ghost a = preset_files(m.presets@);
    let mut i: usize = 0;
    while i < m.toggles.len()
        invariant
            i <= m.toggles@.len(),
            names_view(all@) == a + toggle_files(m.toggles@.take(i as int)),
        decreases m.toggles.len() - i,
    {
        let ghost t = m.toggles@.take(i + 1);
        assert(t.drop_last() =~= m.toggles@.take(i as int));
        assert(t.last() == m.toggles@[i as int]);
        let ghost before = names_view(all@);
        append_names(&mut all, &m.toggles[i].1.files);
        match &m.toggles[i].1.off {
            Some(o) => append_names(&mut all, &o.files),
            None => {},
        }
        proof {
            let e = toggle_files_of(m.toggles@[i as int].1);
            assert(names_view(all@) =~= before + e);
            assert(before + e =~= a + (toggle_files(m.toggles@.take(i as int)) + e));
        }
        i = i + 1;
    }
    assert(m.toggles@.take(m.toggles@.len() as int) =~= m.toggles@);
    let ghost b = a + toggle_files(m.toggles@);
    let mut i: usize = 0;
    while i < m.adapt.len()
        invariant
            i <= m.adapt@.len(),
            names_view(all@) == b + rule_files(m.adapt@.take(i as int)),
        decreases m.adapt.len() - i,
    {
        let ghost t = m.adapt@.take(i + 1);
        assert(t.drop_last() =~= m.adapt@.take(i as int));
        assert(t.last() == m.adapt@[i as int]);
        let ghost before = names_view(all@);
        append_names(&mut all, &m.adapt[i].files);
        proof {
            let e = names_view(m.adapt@[i as int].files@);
            assert(before + e =~= b + (rule_files(m.adapt@.take(i as int)) + e));
        }
        i = i + 1;
    }
    assert(m.adapt@.take(m.adapt@.len() as int) =~= m.adapt@);
    let ghost c = b + rule_files(m.adapt@);
    let mut i: usize = 0;
    while i < m.sliders.len()
        invariant
            i <= m.sliders@.len(),
            names_view(all@) == c + slider_files(m.sliders@.take(i as int)),
        decreases m.sliders.len() - i,
    {
        let ghost t = m.sliders@.take(i + 1);
        assert(t.drop_last() =~= m.sliders@.take(i as int));
        assert(t.last() == m.sliders@[i as int]);
        let ghost before = all@;
        match &m.sliders[i].1.file {
            Some(f) => {
                let x = f.clone();
                all.push(x);
                proof {
                    lemma_names_push(before, x);
                }
            },
            None => {},
        }
        proof {
            let e = match m.sliders@[i as int].1.file {
                Some(f) => seq![f@],
                None => Seq::<Seq<char>>::empty(),
            };
            assert(names_view(all@) =~= names_view(before) + e);
            assert(names_view(before) + e =~= c + (slider_files(m.sliders@.take(i as int)) + e));
        }
        i = i + 1;
    }
    assert(m.sliders@.take(m.sliders@.len() as int) =~= m.sliders@);
    dedup_names(&all)
}

// ─── Settings changed in the game ───────────────────────────────────────────

/// The game options whose value in the game differs from the resolved one.
pub open spec fn toggle_changes(game: Seq<(String, bool)>, rt: Seq<(Seq<char>, bool)>) -> Seq<(String, bool)>
    decreases game.len(),
{
    if game.len() == 0 {
        Seq::empty()
    } else if lookup(rt, game.last().0@) != Some(game.last().1) {
        toggle_changes(game.drop_last(), rt).push(game.last())
    } else {
        toggle_changes(game.drop_last(), rt)
    }
}

/// A slider counts in the game unless the game option it needs is off: the
/// player's value of that option, else the resolved one.
pub open spec fn slider_counts(sl: Slider, ut: Seq<(Seq<char>, bool)>, rt: Seq<(Seq<char>, bool)>) -> bool {
    match sl.requires {
        None => true,
        Some(t) => match lookup(ut, t@) {
            Some(b) => b,
            None => lookup(rt, t@) == Some(true),
        },
    }
}

/// The sliders that count and whose value in the game differs from the
/// resolved one.
pub open spec fn slider_changes(
    game: Seq<(String, i64)>,
    sliders: Seq<(String, Slider)>,
    ut: Seq<(Seq<char>, bool)>,
    rt: Seq<(Seq<char>, bool)>,
    rs: Seq<(Seq<char>, i64)>,
) -> Seq<(String, i64)>
    decreases game.len(),
{
    if game.len() == 0 {
        Seq::empty()
    } else if slider_counts(lookup(pairs_view(sliders), game.last().0@)->0, ut, rt) && lookup(rs, game.last().0@) != Some(
        game.last().1,
    ) {
        slider_changes(game.drop_last(), sliders, ut, rt, rs).push(game.last())
    } else {
        slider_changes(game.drop_last(), sliders, ut, rt, rs)
    }
}

/// The names of a list of pairs.
pub open spec fn first_names<V>(v: Seq<(String, V)>) -> Seq<Seq<char>> {
    Seq::new(v.len(), |i: int| v[i].0@)
}

/// Settings changed in the game (view distance, frames per second,
/// shaders...) become the player's choices, so that the launcher shows what
/// the game has and does not overwrite it at the next launch: each game
/// option whose value in the game differs from the resolved one, then each
/// slider that counts and does. Their names are returned, options first.
/// The player's choices are lists of pairs where a later pair replaces an
/// earlier one.
pub fn take_game_changes(
    m: &PresetsModel,
    r: &Resolution,
    game_toggles: &Vec<(String, bool)>,
    game_sliders: &Vec<(String, i64)>,
    user_toggles: &mut Vec<(String, bool)>,
    user_sliders: &mut Vec<(String, i64)>,
) -> (changed: Vec<String>)
    requires
        forall|i: int| 0 <= i < game_sliders@.len() ==> lookup(pairs_view(m.sliders@), (#[trigger] game_sliders@[i]).0@) is Some,
    ensures
        ({
            let rt = pairs_view(r.toggles@);
            let tc = toggle_changes(game_toggles@, rt);
            let ut = pairs_view(final(user_toggles)@);
            let sc = slider_changes(game_sliders@, m.sliders@, ut, rt, pairs_view(r.sliders@));
            &&& final(user_toggles)@ == old(user_toggles)@ + tc
            &&& final(user_sliders)@ == old(user_sliders)@ + sc
            &&& names_view(changed@) == first_names(tc) + first_names(sc)
        }),
{
    let ghost rt = pairs_view(r.toggles@);
    let ghost rs = pairs_view(r.sliders@);
    let ghost ut0 = user_toggles@;
    let ghost us0 = user_sliders@;
    let mut changed: Vec<String> = Vec::new();
    let mut i: usize = 0;
    while i < game_toggles.len()
        invariant
            i <= game_toggles@.len(),
            rt == pairs_view(r.toggles@),
            user_toggles@ == ut0 + toggle_changes(game_toggles@.take(i as int), rt),
            names_view(changed@) == first_names(toggle_changes(game_toggles@.take(i as int), rt)),
        decreases game_toggles.len() - i,
    {
        let ghost t = game_toggles@.take(i + 1);
        assert(t.drop_last() =~= game_toggles@.take(i as int));
        assert(t.last() == game_toggles@[i as int]);
        let id = &game_toggles[i].0;
        let v = game_toggles[i].1;
        if lookup_value(&r.toggles, id.as_str()) != Some(v) {
            let ghost before = changed@;
            let ghost prev = toggle_changes(game_toggles@.take(i as int), rt);
            let k = id.clone();
            user_toggles.push((k, v));
            let k2 = id.clone();
            changed.push(k2);
            proof {
                lemma_names_push(before, k2);
                assert(first_names(prev.push(game_toggles@[i as int])) =~= first_names(prev).push(k2@));
            }
        }
        i = i + 1;
    }
    assert(game_toggles@.take(game_toggles@.len() as int) =~= game_toggles@);
    let ghost tc = toggle_changes(game_toggles@, rt);
    let ghost ut = pairs_view(user_toggles@);
    let mut j: usize = 0;
    while j < game_sliders.len()
        invariant
            j <= game_sliders@.len(),
            rt == pairs_view(r.toggles@),
            rs == pairs_view(r.sliders@),
            ut == pairs_view(user_toggles@),
            forall|i: int| 0 <= i < game_sliders@.len() ==> lookup(pairs_view(m.sliders@), (#[trigger] game_sliders@[i]).0@) is Some,
            user_sliders@ == us0 + slider_changes(game_sliders@.take(j as int), m.sliders@, ut, rt, rs),
            names_view(changed@) == first_names(tc) + first_names(slider_changes(game_sliders@.take(j as int), m.sliders@, ut, rt, rs)),
        decreases game_sliders.len() - j,
    {
        let ghost t = game_sliders@.take(j + 1);
        assert(t.drop_last() =~= game_sliders@.take(j as int));
        assert(t.last() == game_sliders@[j as int]);
        let id = &game_sliders[j].0;
        let v = game_sliders[j].1;
        assert(lookup(pairs_view(m.sliders@), game_sliders@[j as int].0@) is Some);
        let si = match find_key(&m.sliders, id.as_str()) {
            Some(k) => k,
            None => {
                return changed;
            },
        };
        let active = match &m.sliders[si].1.requires {
            None => true,
            Some(t) => match lookup_value(user_toggles, t.as_str()) {
                Some(b) => b,
                None => lookup_value(&r.toggles, t.as_str()) == Some(true),
            },
        };
        if active && lookup_value(&r.sliders, id.as_str()) != Some(v) {
            let ghost before = changed@;
            let ghost prev = slider_changes(game_sliders@.take(j as int), m.sliders@, ut, rt, rs);
            let k = id.clone();
            user_sliders.push((k, v));
            let k2 = id.clone();
            changed.push(k2);
            proof {
                lemma_names_push(before, k2);
                assert(first_names(prev.push(game_sliders@[j as int])) =~= first_names(prev).push(k2@));
                assert(first_names(tc) + first_names(prev).push(k2@) =~= (first_names(tc) + first_names(prev)).push(k2@));
            }
        }
        j = j + 1;
    }
    assert(game_sliders@.take(game_sliders@.len() as int) =~= game_sliders@);
    changed
}

proof fn lemma_pairs_concat<V>(a: Seq<(String, V)>, b: Seq<(String, V)>)
    ensures
        pairs_view(a + b) == pairs_view(a) + pairs_view(b),
{
    assert(pairs_view(a + b) =~= pairs_view(a) + pairs_view(b));
}

/// A game option whose value in the game differs from the resolved one
/// becomes the player's choice at that value: resolving again then gives
/// the game's value (see `lemma_player_toggle_wins`).
pub proof fn lemma_game_toggle_kept(user: Seq<(String, bool)>, game: Seq<(String, bool)>, rt: Seq<(Seq<char>, bool)>, k: Seq<char>, v: bool)
    requires
        lookup(pairs_view(game), k) == Some(v),
        lookup(rt, k) != Some(v),
    ensures
        lookup(pairs_view(user + toggle_changes(game, rt)), k) == Some(v),
    decreases game.len(),
{
    let tc = toggle_changes(game, rt);
    lemma_pairs_concat(user, tc);
    lemma_lookup_concat(pairs_view(user), pairs_view(tc), k);
    if game.last().0@ == k {
        assert(pairs_view(tc).last() == (k, v));
    } else {
        assert(pairs_view(game.drop_last()) =~= pairs_view(game).drop_last());
        lemma_game_toggle_kept(user, game.drop_last(), rt, k, v);
        let prev = toggle_changes(game.drop_last(), rt);
        lemma_pairs_concat(user, prev);
        lemma_lookup_concat(pairs_view(user), pairs_view(prev), k);
        if lookup(rt, game.last().0@) != Some(game.last().1) {
            assert(pairs_view(tc).drop_last() =~= pairs_view(prev));
            assert(pairs_view(tc).last().0 != k);
            assert(lookup(pairs_view(tc), k) == lookup(pairs_view(prev), k));
        } else {
            assert(tc == prev);
        }
    }
}

// ─── Values the game has ────────────────────────────────────────────────────

/// The value of `key` in the lines of options.txt: what follows `key:` on
/// the first line that sets it.
pub open spec fn option_value(lines: Seq<Seq<char>>, key: Seq<char>) -> Option<Seq<char>> {
    match first_with_prefix(lines, key + ":"@) {
        Some(i) => Some(lines[i].subrange(key.len() + 1 as int, lines[i].len() as int)),
        None => None,
    }
}

/// Each option of `opts` has its value in options.txt.
pub open spec fn all_set(opts: Seq<(String, String)>, lines: Seq<Seq<char>>) -> bool {
    forall|i: int| 0 <= i < opts.len() ==> option_value(lines, (#[trigger] opts[i]).0@) == Some(opts[i].1@)
}

/// Whether a game option is on in the game, as options.txt shows it: on
/// when every option it sets when on has that value there, else off when
/// every option it sets when off has; unknown when it sets none there or
/// the values match neither.
pub open spec fn toggle_in_game(t: ToggleSettings, lines: Seq<Seq<char>>) -> Option<bool> {
    if t.options@.len() > 0 && all_set(t.options@, lines) {
        Some(true)
    } else if t.off matches Some(off) && off.options@.len() > 0 && all_set(off.options@, lines) {
        Some(false)
    } else {
        None
    }
}

/// The game options whose state options.txt shows, in the model's order.
pub open spec fn game_toggle_values(toggles: Seq<(String, ToggleSettings)>, lines: Seq<Seq<char>>) -> Seq<(String, bool)>
    decreases toggles.len(),
{
    if toggles.len() == 0 {
        Seq::empty()
    } else {
        let prev = game_toggle_values(toggles.drop_last(), lines);
        match toggle_in_game(toggles.last().1, lines) {
            Some(b) => prev.push((toggles.last().0, b)),
            None => prev,
        }
    }
}

/// The value in the game of a slider written in options.txt: its option's
/// value there, quotes trimmed, when it is a number.
pub open spec fn slider_in_game(sl: Slider, lines: Seq<Seq<char>>) -> Option<i64> {
    match sl.option {
        Some(o) => match option_value(lines, o@) {
            Some(v) => parse_i64(trim_quotes(v)),
            None => None,
        },
        None => None,
    }
}

/// The sliders whose value options.txt shows, in the model's order.
pub open spec fn game_slider_values(sliders: Seq<(String, Slider)>, lines: Seq<Seq<char>>) -> Seq<(String, i64)>
    decreases sliders.len(),
{
    if sliders.len() == 0 {
        Seq::empty()
    } else {
        let prev = game_slider_values(sliders.drop_last(), lines);
        match slider_in_game(sliders.last().1, lines) {
            Some(v) => prev.push((sliders.last().0, v)),
            None => prev,
        }
    }
}

/// See `option_value`.
fn option_value_in(lines: &Vec<String>, key: &str) -> (r: Option<String>)
    ensures
        match option_value(names_view(lines@), key@) {
            Some(v) => r matches Some(x) && x@ == v,
            None => r is None,
        },
{
    let ghost ls = names_view(lines@);
    let mut prefix = key.to_owned();
    prefix.append(":");
    let mut i: usize = 0;
    while i < lines.len()
        invariant
            i <= lines@.len(),
            ls == names_view(lines@),
            prefix@ == key@ + ":"@,
            forall|j: int| 0 <= j < i ==> !starts_with(#[trigger] ls[j], prefix@),
        decreases lines.len() - i,
    {
        assert(ls[i as int] == lines@[i as int]@);
        if starts_with_str(lines[i].as_str(), prefix.as_str()) {
            proof {
                lemma_first_with_prefix_at(ls, prefix@, i as int);
            }
            let v = to_chars(lines[i].as_str());
            let from = prefix.unicode_len();
            proof {
                reveal_strlit(":");
            }
            assert(from == key@.len() + 1);
            let out = crate::text::string_of(v.as_slice(), from, v.len());
            assert(out@ == ls[i as int].subrange(key@.len() + 1 as int, ls[i as int].len() as int));
            return Some(out);
        }
        i = i + 1;
    }
    proof {
        lemma_first_with_prefix_none(ls, prefix@);
    }
    None
}

/// See `all_set`.
fn all_set_in(opts: &Vec<(String, String)>, lines: &Vec<String>) -> (r: bool)
    ensures
        r == all_set(opts@, names_view(lines@)),
{
    let mut i: usize = 0;
    while i < opts.len()
        invariant
            i <= opts@.len(),
            forall|j: int| 0 <= j < i ==> option_value(names_view(lines@), (#[trigger] opts@[j]).0@) == Some(opts@[j].1@),
        decreases opts.len() - i,
    {
        match option_value_in(lines, opts[i].0.as_str()) {
            Some(v) => {
                if !str_eq(v.as_str(), opts[i].1.as_str()) {
                    return false;
                }
            },
            None => {
                return false;
            },
        }
        i = i + 1;
    }
    true
}

/// What the game has, as options.txt shows it: the game options whose
/// state it shows (`game_toggle_values`) and the sliders whose value it
/// shows (`game_slider_values`), each of them a slider of the model.
pub fn game_values(m: &PresetsModel, options: &str) -> (r: (Vec<(String, bool)>, Vec<(String, i64)>))
    ensures
        r.0@ == game_toggle_values(m.toggles@, spec_lines(options@)),
        r.1@ == game_slider_values(m.sliders@, spec_lines(options@)),
        forall|i: int| 0 <= i < r.1@.len() ==> lookup(pairs_view(m.sliders@), (#[trigger] r.1@[i]).0@) is Some,
{
    let lines = crate::text::lines_of(options);
    let ghost ls = spec_lines(options@);
    assert(names_view(lines@) =~= ls);
    let mut toggles: Vec<(String, bool)> = Vec::new();
    let mut i: usize = 0;
    while i < m.toggles.len()
        invariant
            i <= m.toggles@.len(),
            names_view(lines@) == ls,
            toggles@ == game_toggle_values(m.toggles@.take(i as int), ls),
        decreases m.toggles.len() - i,
    {
        let ghost t = m.toggles@.take(i + 1);
        assert(t.drop_last() =~= m.toggles@.take(i as int));
        assert(t.last() == m.toggles@[i as int]);
        let ts = &m.toggles[i].1;
        let state = if ts.options.len() > 0 && all_set_in(&ts.options, &lines) {
            Some(true)
        } else {
            match &ts.off {
                Some(off) => if off.options.len() > 0 && all_set_in(&off.options, &lines) {
                    Some(false)
                } else {
                    None
                },
                None => None,
            }
        };
        match state {
            Some(b) => toggles.push((m.toggles[i].0.clone(), b)),
            None => {},
        }
        i = i + 1;
    }
    assert(m.toggles@.take(m.toggles@.len() as int) =~= m.toggles@);
    let mut sliders: Vec<(String, i64)> = Vec::new();
    let mut j: usize = 0;
    while j < m.sliders.len()
        invariant
            j <= m.sliders@.len(),
            names_view(lines@) == ls,
            sliders@ == game_slider_values(m.sliders@.take(j as int), ls),
            forall|k: int| 0 <= k < sliders@.len() ==> lookup(pairs_view(m.sliders@.take(j as int)), (#[trigger] sliders@[k]).0@) is Some,
        decreases m.sliders.len() - j,
    {
        let ghost t = m.sliders@.take(j + 1);
        assert(t.drop_last() =~= m.sliders@.take(j as int));
        assert(t.last() == m.sliders@[j as int]);
        assert(pairs_view(t).drop_last() =~= pairs_view(m.sliders@.take(j as int)));
        let ghost before = sliders@;
        let sl = &m.sliders[j].1;
        let value = match &sl.option {
            Some(o) => match option_value_in(&lines, o.as_str()) {
                Some(text) => {
                    let v = to_chars(text.as_str());
                    let a = skip_char(&v, 0, v.len(), '"');
                    let e = drop_char_end(&v, a, v.len(), '"');
                    assert(v@.subrange(0, v@.len() as int) =~= v@);
                    let inner = sub_vec(&v, a, e);
                    parse_i64_of(&inner)
                },
                None => None,
            },
            None => None,
        };
        match value {
            Some(n) => sliders.push((m.sliders[j].0.clone(), n)),
            None => {},
        }
        assert forall|k: int| 0 <= k < sliders@.len() implies lookup(pairs_view(t), (#[trigger] sliders@[k]).0@) is Some by {
            if k < before.len() {
                assert(sliders@[k] == before[k]);
            }
        }
        j = j + 1;
    }
    assert(m.sliders@.take(m.sliders@.len() as int) =~= m.sliders@);
    (toggles, sliders)
}

/// What taking the settings changed in the game did: the names taken, and
/// whether the fingerprint of the applied settings must be computed anew
/// (the game already has the values taken: nothing to write again).
pub struct GameChanges {
    pub taken: Vec<String>,
    pub refresh_fingerprint: bool,
}

/// In-game changes are taken only when the launcher applied settings at
/// the last launch and nothing changed on its side since: the fingerprint
/// it noted is the one of what it would apply now.
pub open spec fn may_take(applied: Option<String>, current: Seq<char>) -> bool {
    applied matches Some(h) && h@ == current
}

/// Settings changed in the game, taken as the player's choices (see
/// `take_game_changes`), but only when nothing changed on the launcher's
/// side since the last launch (`may_take`): else the launcher has the last
/// word, and nothing is taken. `current` is the fingerprint of what would
/// be applied now, `r` the resolution it was made from.
pub fn import_game_changes(
    m: &PresetsModel,
    r: &Resolution,
    current: &str,
    game_toggles: &Vec<(String, bool)>,
    game_sliders: &Vec<(String, i64)>,
    s: &mut crate::settings::Settings,
) -> (c: GameChanges)
    requires
        forall|i: int| 0 <= i < game_sliders@.len() ==> lookup(pairs_view(m.sliders@), (#[trigger] game_sliders@[i]).0@) is Some,
    ensures
        !may_take(old(s).applied, current@) ==> c.taken@.len() == 0 && *final(s) == *old(s),
        may_take(old(s).applied, current@) ==> ({
            let rt = pairs_view(r.toggles@);
            let tc = toggle_changes(game_toggles@, rt);
            let ut = pairs_view(final(s).toggles@);
            let sc = slider_changes(game_sliders@, m.sliders@, ut, rt, pairs_view(r.sliders@));
            &&& final(s).toggles@ == old(s).toggles@ + tc
            &&& final(s).sliders@ == old(s).sliders@ + sc
            &&& names_view(c.taken@) == first_names(tc) + first_names(sc)
            &&& *final(s) == (crate::settings::Settings { toggles: final(s).toggles, sliders: final(s).sliders, ..*old(s) })
        }),
        c.refresh_fingerprint == (c.taken@.len() > 0),
{
    let take = match &s.applied {
        Some(h) => str_eq(h.as_str(), current),
        None => false,
    };
    if !take {
        return GameChanges { taken: Vec::new(), refresh_fingerprint: false };
    }
    let taken = take_game_changes(m, r, game_toggles, game_sliders, &mut s.toggles, &mut s.sliders);
    let refresh_fingerprint = taken.len() > 0;
    GameChanges { taken, refresh_fingerprint }
}


// ─── Rules restricted to some presets ───────────────────────────────────────

/// `holds` with rule `j` not met: the rule left out.
pub open spec fn without_rule(holds: Seq<bool>, j: int) -> Seq<bool> {
    holds.update(j, false)
}

proof fn lemma_rule_for_other_presets_adv(
    m: PresetsModel,
    p: PresetSettings,
    base: Seq<char>,
    holds: Seq<bool>,
    hz: Option<u32>,
    h: Option<u32>,
    k: Seq<char>,
    j: int,
    n: int,
)
    requires
        0 <= j < m.adapt@.len(),
        holds.len() == m.adapt@.len(),
        n <= m.adapt@.len(),
        m.adapt@[j].presets matches Some(ps) && !crate::packwiz::holds(ps@, base),
    ensures
        adv_toggle(m, p, base, holds, k, n) == adv_toggle(m, p, base, without_rule(holds, j), k, n),
        adv_slider(m, p, base, holds, hz, h, k, n) == adv_slider(m, p, base, without_rule(holds, j), hz, h, k, n),
        adapt_note(m, base, holds, hz, h, k, n) == adapt_note(m, base, without_rule(holds, j), hz, h, k, n),
        adapt_file(m, base, holds, k, n) == adapt_file(m, base, without_rule(holds, j), k, n),
    decreases n,
{
    if n > 0 {
        lemma_rule_for_other_presets_adv(m, p, base, holds, hz, h, k, j, n - 1);
        let w = without_rule(holds, j);
        if n - 1 == j {
            assert(!rule_applies(m.adapt@[j], base, holds[j]));
            assert(!rule_applies(m.adapt@[j], base, w[j]));
        } else {
            assert(w[n - 1] == holds[n - 1]);
        }
    }
}

/// An automatic adjustment restricted to some presets changes nothing when
/// the preset resolved is not among them, whether the machine meets its
/// condition or not: every game option, slider, note of adjustment and
/// file edit is the one obtained with the rule left out.
pub proof fn lemma_rule_for_other_presets_changes_nothing(
    m: PresetsModel,
    p: PresetSettings,
    base: Seq<char>,
    holds: Seq<bool>,
    hz: Option<u32>,
    h: Option<u32>,
    c: Choices,
    j: int,
)
    requires
        0 <= j < m.adapt@.len(),
        holds.len() == m.adapt@.len(),
        m.adapt@[j].presets matches Some(ps) && !crate::packwiz::holds(ps@, base),
    ensures
        forall|k: Seq<char>| #[trigger] final_toggle(m, p, base, holds, c, k) == final_toggle(m, p, base, without_rule(holds, j), c, k),
        forall|k: Seq<char>|
            #[trigger] final_slider(m, p, base, holds, hz, h, c, k) == final_slider(m, p, base, without_rule(holds, j), hz, h, c, k),
        forall|k: Seq<char>|
            #[trigger] adapt_note(m, base, holds, hz, h, k, m.adapt@.len() as int) == adapt_note(
                m,
                base,
                without_rule(holds, j),
                hz,
                h,
                k,
                m.adapt@.len() as int,
            ),
        forall|k: Seq<char>|
            #[trigger] adapt_file(m, base, holds, k, m.adapt@.len() as int) == adapt_file(
                m,
                base,
                without_rule(holds, j),
                k,
                m.adapt@.len() as int,
            ),
{
    assert forall|k: Seq<char>| #[trigger] final_toggle(m, p, base, holds, c, k) == final_toggle(m, p, base, without_rule(holds, j), c, k) by {
        lemma_rule_for_other_presets_adv(m, p, base, holds, hz, h, k, j, m.adapt@.len() as int);
    }
    assert forall|k: Seq<char>|
        #[trigger] final_slider(m, p, base, holds, hz, h, c, k) == final_slider(m, p, base, without_rule(holds, j), hz, h, c, k) by {
        lemma_rule_for_other_presets_adv(m, p, base, holds, hz, h, k, j, m.adapt@.len() as int);
    }
    assert forall|k: Seq<char>|
        #[trigger] adapt_note(m, base, holds, hz, h, k, m.adapt@.len() as int) == adapt_note(
            m,
            base,
            without_rule(holds, j),
            hz,
            h,
            k,
            m.adapt@.len() as int,
        ) by {
        lemma_rule_for_other_presets_adv(m, p, base, holds, hz, h, k, j, m.adapt@.len() as int);
    }
    assert forall|k: Seq<char>|
        #[trigger] adapt_file(m, base, holds, k, m.adapt@.len() as int) == adapt_file(m, base, without_rule(holds, j), k, m.adapt@.len() as int) by {
        lemma_rule_for_other_presets_adv(m, p, base, holds, hz, h, k, j, m.adapt@.len() as int);
    }
}

} // verus!
