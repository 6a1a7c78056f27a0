//! After an abnormal stop of the game: what can be told to the player (and
//! to the server's team) without asking them to open files. The crash report
//! names the SYMPTOM; the first real error of latest.log often names the
//! CULPRIT. Finding and reading the files happens outside the library.

use vstd::prelude::*;

use crate::text::{
    contains, contains_str, lines_of, spec_lines, spec_trim, starts_with, starts_with_str, string_of,
    strings_of, take_chars, to_chars, trim, trim_chars,
};

verus! {

/// What is known of a crash.
#[derive(Clone, Debug)]
pub struct CrashSummary {
    /// "Rendering screen", "Exception while adding particle"...
    pub description: String,
    /// First line of the exception.
    pub cause: String,
    pub report: Option<String>,
    /// First non-benign ERROR/FATAL of latest.log.
    pub first_error: Option<String>,
    /// FML in "broken mod state": the following errors are cascades.
    pub cascade: bool,
    pub native: bool,
}

/// Lines logged as ERROR but of no diagnostic value.
pub open spec fn benign(l: Seq<char>) -> bool {
    ||| contains(l, "glfwInit took"@)
    ||| contains(l, "Cowardly refusing to send event"@)
    ||| contains(l, "Negative index in crash report handler"@)
    ||| contains(l, "Error loading class:"@)
    ||| contains(l, "Unsupported installed optional dependencies"@)
    ||| contains(l, "Access transformer file META-INF/accesstransformer.cfg provided by mod"@)
    ||| contains(l, "Unsupported Uniform Type"@)
}

fn is_benign(l: &str) -> (r: bool)
    ensures
        r == benign(l@),
{
    contains_str(l, "glfwInit took") || contains_str(l, "Cowardly refusing to send event") || contains_str(
        l,
        "Negative index in crash report handler",
    ) || contains_str(l, "Error loading class:") || contains_str(l, "Unsupported installed optional dependencies")
        || contains_str(l, "Access transformer file META-INF/accesstransformer.cfg provided by mod")
        || contains_str(l, "Unsupported Uniform Type")
}

/// A line logged as ERROR or FATAL that tells something.
pub open spec fn error_line(l: Seq<char>) -> bool {
    (contains(l, "/ERROR]"@) || contains(l, "/FATAL]"@)) && !benign(l)
}

/// The first error line of `lines`.
pub open spec fn first_error_line(lines: Seq<Seq<char>>) -> Option<Seq<char>>
    decreases lines.len(),
{
    if lines.len() == 0 {
        None
    } else if error_line(lines[0]) {
        Some(lines[0])
    } else {
        first_error_line(lines.drop_first())
    }
}

/// At most the first 300 characters of `s`.
pub open spec fn clip300(s: Seq<char>) -> Seq<char> {
    if s.len() <= 300 {
        s
    } else {
        s.subrange(0, 300)
    }
}

/// The first error of latest.log that tells something, cut at 300
/// characters.
pub open spec fn spec_first_error(log: Seq<char>) -> Option<Seq<char>> {
    match first_error_line(spec_lines(log)) {
        Some(l) => Some(clip300(l)),
        None => None,
    }
}

pub fn first_error(log: &str) -> (r: Option<String>)
    ensures
        match spec_first_error(log@) {
            Some(e) => (r matches Some(s) && s@ == e),
            None => r is None,
        },
{
    let lines = lines_of(log);
    let ghost ls = strings_of(lines@);
    assert(ls.subrange(0, ls.len() as int) =~= ls);
    let mut i: usize = 0;
    while i < lines.len()
        invariant
            i <= lines@.len(),
            ls == strings_of(lines@),
            ls == spec_lines(log@),
            first_error_line(ls) == first_error_line(ls.subrange(i as int, ls.len() as int)),
        decreases lines.len() - i,
    {
        let ghost rest = ls.subrange(i as int, ls.len() as int);
        assert(rest[0] == lines@[i as int]@);
        let l = lines[i].as_str();
        let hit = (contains_str(l, "/ERROR]") || contains_str(l, "/FATAL]")) && !is_benign(l);
        if hit {
            return Some(take_chars(l, 300));
        }
        assert(rest.drop_first() =~= ls.subrange(i + 1, ls.len() as int));
        i = i + 1;
    }
    None
}

/// FML reports a "broken mod state": the errors after it are cascades.
pub fn is_cascade(log: &str) -> (r: bool)
    ensures
        r == contains(log@, "broken mod state"@),
{
    contains_str(log, "broken mod state")
}

/// The line after the first one naming the "Problematic frame" (empty if
/// there is none).
pub open spec fn frame_line(lines: Seq<Seq<char>>) -> Seq<char>
    decreases lines.len(),
{
    if lines.len() == 0 {
        Seq::empty()
    } else if contains(lines[0], "Problematic frame"@) {
        if lines.len() > 1 {
            lines[1]
        } else {
            Seq::empty()
        }
    } else {
        frame_line(lines.drop_first())
    }
}

/// `s` without its leading `#`s.
pub open spec fn strip_hashes(s: Seq<char>) -> Seq<char>
    decreases s.len(),
{
    if s.len() > 0 && s[0] == '#' {
        strip_hashes(s.drop_first())
    } else {
        s
    }
}

/// The frame where the JVM crashed, from its `hs_err_pid` file.
pub open spec fn spec_native_frame(hs_err: Seq<char>) -> Seq<char> {
    spec_trim(strip_hashes(frame_line(spec_lines(hs_err))))
}

pub fn native_frame(hs_err: &str) -> (r: String)
    ensures
        r@ == spec_native_frame(hs_err@),
{
    let lines = lines_of(hs_err);
    let ghost ls = strings_of(lines@);
    let mut i: usize = 0;
    let mut frame = String::new();
    assert(ls.subrange(0, ls.len() as int) =~= ls);
    while i < lines.len()
        invariant_except_break
            frame@ == Seq::<char>::empty(),
        invariant
            i <= lines@.len(),
            ls == strings_of(lines@),
            frame_line(ls) == frame_line(ls.subrange(i as int, ls.len() as int)),
        ensures
            frame_line(ls) == frame@,
        decreases lines.len() - i,
    {
        let ghost rest = ls.subrange(i as int, ls.len() as int);
        assert(rest[0] == lines@[i as int]@);
        if i + 1 < lines.len() {
            assert(rest[1] == lines@[i + 1]@);
        }
        if contains_str(lines[i].as_str(), "Problematic frame") {
            if i + 1 < lines.len() {
                assert(rest[1] == lines@[i + 1]@);
                frame = lines[i + 1].clone();
            }
            break;
        }
        assert(rest.drop_first() =~= ls.subrange(i + 1, ls.len() as int));
        i = i + 1;
    }
    let v = to_chars(frame.as_str());
    let mut a: usize = 0;
    assert(v@.subrange(0, v@.len() as int) =~= v@);
    while a < v.len() && v[a] == '#'
        invariant
            a <= v@.len(),
            strip_hashes(v@) == strip_hashes(v@.subrange(a as int, v@.len() as int)),
        decreases v.len() - a,
    {
        assert(v@.subrange(a as int, v@.len() as int).drop_first() =~= v@.subrange(a + 1, v@.len() as int));
        a = a + 1;
    }
    let rest = crate::text::sub_vec(&v, a, v.len());
    trim_chars(&rest)
}

/// Index of the first line starting with `Description: `.
pub open spec fn description_index(lines: Seq<Seq<char>>) -> Option<int>
    decreases lines.len(),
{
    if lines.len() == 0 {
        None
    } else if starts_with(lines[0], "Description: "@) {
        Some(0)
    } else {
        match description_index(lines.drop_first()) {
            Some(i) => Some(i + 1),
            None => None,
        }
    }
}

/// The first line of `lines` that is not blank (empty if none).
pub open spec fn first_non_blank(lines: Seq<Seq<char>>) -> Seq<char>
    decreases lines.len(),
{
    if lines.len() == 0 {
        Seq::empty()
    } else if spec_trim(lines[0]).len() > 0 {
        lines[0]
    } else {
        first_non_blank(lines.drop_first())
    }
}

/// What a crash report says: its description (`?` if none), and the first
/// line that is not blank after it (the exception), cut at 300 characters.
pub open spec fn spec_report(text: Seq<char>) -> (Seq<char>, Seq<char>) {
    let ls = spec_lines(text);
    match description_index(ls) {
        Some(i) => (ls[i].subrange(13, ls[i].len() as int), clip300(first_non_blank(ls.subrange(i + 1, ls.len() as int)))),
        None => ("?"@, Seq::empty()),
    }
}

proof fn lemma_description_index(ls: Seq<Seq<char>>)
    ensures
        description_index(ls) matches Some(i) ==> 0 <= i < ls.len() && starts_with(ls[i], "Description: "@),
    decreases ls.len(),
{
    if ls.len() > 0 && !starts_with(ls[0], "Description: "@) {
        lemma_description_index(ls.drop_first());
        if description_index(ls.drop_first()) is Some {
            let i = description_index(ls.drop_first())->0;
            assert(ls[i + 1] == ls.drop_first()[i]);
        }
    }
}

pub fn read_report(text: &str) -> (r: (String, String))
    ensures
        (r.0@, r.1@) == spec_report(text@),
{
    let lines = lines_of(text);
    let ghost ls = strings_of(lines@);
    proof {
        reveal_strlit("Description: ");
        lemma_description_index(ls);
    }
    assert(ls.subrange(0, ls.len() as int) =~= ls);
    let mut i: usize = 0;
    while i < lines.len()
        invariant
            i <= lines@.len(),
            ls == strings_of(lines@),
            ls == spec_lines(text@),
            "Description: "@.len() == 13,
            description_index(ls) == match description_index(ls.subrange(i as int, ls.len() as int)) {
                Some(k) => Some(k + i),
                None => None,
            },
        decreases lines.len() - i,
    {
        let ghost rest = ls.subrange(i as int, ls.len() as int);
        assert(rest[0] == lines@[i as int]@);
        if starts_with_str(lines[i].as_str(), "Description: ") {
            let v = to_chars(lines[i].as_str());
            assert(description_index(rest) == Some(0int));
            let description = string_of(v.as_slice(), 13, v.len());
            let mut j = i + 1;
            assert(ls.subrange(i + 1, ls.len() as int) == ls.subrange(j as int, ls.len() as int));
            let ghost after = ls.subrange(i + 1, ls.len() as int);
            while j < lines.len()
                invariant
                    i < j <= lines@.len(),
                    ls == strings_of(lines@),
                    ls == spec_lines(text@),
                    description_index(ls) == Some(i as int),
                    description@ == ls[i as int].subrange(13, ls[i as int].len() as int),
                    after == ls.subrange(i + 1, ls.len() as int),
                    first_non_blank(after) == first_non_blank(ls.subrange(j as int, ls.len() as int)),
                decreases lines.len() - j,
            {
                let ghost rj = ls.subrange(j as int, ls.len() as int);
                assert(rj[0] == lines@[j as int]@);
                let t = trim(lines[j].as_str());
                if t.as_str().unicode_len() > 0 {
                    return (description, take_chars(lines[j].as_str(), 300));
                }
                assert(rj.drop_first() =~= ls.subrange(j + 1, ls.len() as int));
                j = j + 1;
            }
            assert(ls.subrange(j as int, ls.len() as int) =~= Seq::<Seq<char>>::empty());
            return (description, String::new());
        }
        assert(rest.drop_first() =~= ls.subrange(i + 1, ls.len() as int));
        i = i + 1;
    }
    ("?".to_owned(), String::new())
}

/// The summary of a native crash of the JVM (no crash report, no end of
/// latest.log): its `hs_err_pid` file and the frame it names.
pub fn native_crash(hs_err: &str, hs_err_path: String, log: &str) -> (s: CrashSummary)
    ensures
        s.description@ == "Plantage de Java (code natif)"@,
        s.cause@ == spec_native_frame(hs_err@),
        s.report == Some(hs_err_path),
        match spec_first_error(log@) {
            Some(e) => (s.first_error matches Some(f) && f@ == e),
            None => s.first_error is None,
        },
        s.cascade == contains(log@, "broken mod state"@),
        s.native,
{
    CrashSummary {
        description: "Plantage de Java (code natif)".to_owned(),
        cause: native_frame(hs_err),
        report: Some(hs_err_path),
        first_error: first_error(log),
        cascade: is_cascade(log),
        native: true,
    }
}

/// The summary of a crash from its crash report.
pub fn report_crash(report: &str, report_path: String, log: &str) -> (s: CrashSummary)
    ensures
        (s.description@, s.cause@) == spec_report(report@),
        s.report == Some(report_path),
        match spec_first_error(log@) {
            Some(e) => (s.first_error matches Some(f) && f@ == e),
            None => s.first_error is None,
        },
        s.cascade == contains(log@, "broken mod state"@),
        !s.native,
{
    let (description, cause) = read_report(report);
    CrashSummary {
        description,
        cause,
        report: Some(report_path),
        first_error: first_error(log),
        cascade: is_cascade(log),
        native: false,
    }
}


/// A crash file: its name starts with `prefix`, ends with `suffix`, and it
/// was modified at `since_ms` or later.
pub open spec fn is_crash_file(e: (String, u64), prefix: Seq<char>, suffix: Seq<char>, since_ms: u64) -> bool {
    starts_with(e.0@, prefix) && crate::packwiz::ends_with(e.0@, suffix) && e.1 >= since_ms
}

/// The newest crash file of a directory (`entries`: each file's name and
/// the time it was modified, in ms): the latest of the crash files, the
/// last listed of those equally recent; `None` if there is none.
pub fn newest_entry(entries: &Vec<(String, u64)>, prefix: &str, suffix: &str, since_ms: u64) -> (r: Option<usize>)
    ensures
        match r {
            Some(i) => {
                &&& i < entries@.len()
                &&& is_crash_file(entries@[i as int], prefix@, suffix@, since_ms)
                &&& forall|j: int| 0 <= j < entries@.len() && is_crash_file(#[trigger] entries@[j], prefix@, suffix@, since_ms)
                    ==> entries@[j].1 <= entries@[i as int].1
                &&& forall|j: int| i < j < entries@.len() && is_crash_file(#[trigger] entries@[j], prefix@, suffix@, since_ms)
                    ==> entries@[j].1 < entries@[i as int].1
            },
            None => forall|j: int| 0 <= j < entries@.len() ==> !is_crash_file(#[trigger] entries@[j], prefix@, suffix@, since_ms),
        },
{
    let mut best: Option<usize> = None;
    let mut k: usize = 0;
    while k < entries.len()
        invariant
            k <= entries@.len(),
            match best {
                Some(i) => {
                    &&& i < k
                    &&& is_crash_file(entries@[i as int], prefix@, suffix@, since_ms)
                    &&& forall|j: int| 0 <= j < k && is_crash_file(#[trigger] entries@[j], prefix@, suffix@, since_ms)
                        ==> entries@[j].1 <= entries@[i as int].1
                    &&& forall|j: int| i < j < k && is_crash_file(#[trigger] entries@[j], prefix@, suffix@, since_ms)
                        ==> entries@[j].1 < entries@[i as int].1
                },
                None => forall|j: int| 0 <= j < k ==> !is_crash_file(#[trigger] entries@[j], prefix@, suffix@, since_ms),
            },
        decreases entries.len() - k,
    {
        let name = entries[k].0.as_str();
        let t = entries[k].1;
        if starts_with_str(name, prefix) && crate::packwiz::ends_with_str(name, suffix) && t >= since_ms {
            assert(is_crash_file(entries@[k as int], prefix@, suffix@, since_ms));
            match best {
                Some(i) => {
                    if t >= entries[i].1 {
                        best = Some(k);
                    }
                },
                None => {
                    best = Some(k);
                },
            }
        } else {
            assert(!is_crash_file(entries@[k as int], prefix@, suffix@, since_ms));
        }
        k = k + 1;
    }
    best
}


/// A line logged at level ERROR or FATAL (`/ERROR]`, `/FATAL]`) that is not
/// one of the benign ones.
pub open spec fn marked_error(l: Seq<char>) -> bool {
    &&& !benign(l)
    &&& contains(l, "/FATAL]"@) || contains(l, "/ERROR]"@)
}

proof fn lemma_first_error_line_at(lines: Seq<Seq<char>>, i: int)
    requires
        0 <= i < lines.len(),
        marked_error(lines[i]),
        forall|j: int| 0 <= j < i ==> !marked_error(#[trigger] lines[j]),
    ensures
        first_error_line(lines) == Some(lines[i]),
    decreases i,
{
    if i > 0 {
        assert(!marked_error(lines[0]));
        assert forall|j: int| 0 <= j < i - 1 implies !marked_error(#[trigger] lines.drop_first()[j]) by {
            assert(lines.drop_first()[j] == lines[j + 1]);
        }
        lemma_first_error_line_at(lines.drop_first(), i - 1);
    }
}

proof fn lemma_first_error_line_none(lines: Seq<Seq<char>>)
    requires
        forall|j: int| 0 <= j < lines.len() ==> !marked_error(#[trigger] lines[j]),
    ensures
        first_error_line(lines) is None,
    decreases lines.len(),
{
    if lines.len() > 0 {
        assert(!marked_error(lines[0]));
        assert forall|j: int| 0 <= j < lines.len() - 1 implies !marked_error(#[trigger] lines.drop_first()[j]) by {
            assert(lines.drop_first()[j] == lines[j + 1]);
        }
        lemma_first_error_line_none(lines.drop_first());
    }
}

/// The error reported from latest.log is its first line logged at level
/// ERROR or FATAL that is not benign, cut at 300 characters; none when
/// there is no such line.
pub proof fn lemma_first_error_is_first_error_or_fatal_line(log: Seq<char>)
    ensures
        ({
            let lines = spec_lines(log);
            &&& forall|i: int|
                0 <= i < lines.len() && marked_error(#[trigger] lines[i]) && (forall|j: int|
                    0 <= j < i ==> !marked_error(#[trigger] lines[j])) ==> spec_first_error(log) == Some(
                    lines[i].subrange(0, if lines[i].len() <= 300 { lines[i].len() as int } else { 300 }),
                )
            &&& (forall|j: int| 0 <= j < lines.len() ==> !marked_error(#[trigger] lines[j])) ==> spec_first_error(log)
                is None
        }),
{
    let lines = spec_lines(log);
    assert forall|i: int|
        0 <= i < lines.len() && marked_error(#[trigger] lines[i]) && (forall|j: int| 0 <= j < i ==> !marked_error(#[trigger] lines[j]))
        implies spec_first_error(log) == Some(
        lines[i].subrange(0, if lines[i].len() <= 300 { lines[i].len() as int } else { 300 }),
    ) by {
        lemma_first_error_line_at(lines, i);
        assert(lines[i].subrange(0, lines[i].len() as int) =~= lines[i]);
    }
    if forall|j: int| 0 <= j < lines.len() ==> !marked_error(#[trigger] lines[j]) {
        lemma_first_error_line_none(lines);
    }
}

} // verus!
