//! Preparing, then launching the game. The game's output is read line by
//! line; known milestones become a progress, estimated from the length of
//! the previous launch on the same machine. Running the game and touching
//! its files happen outside the library; here is what is decided.

use vstd::prelude::*;

use crate::progress::Event;
use crate::text::{
    contains, contains_str, lemma_lines_of_line, lemma_lines_without_newline, lines_of, spec_lines, spec_trim, starts_with,
    starts_with_str, str_eq, strings_of, strip_cr, trim,
};

verus! {

/// How a launch ended: the game's exit code, and the time of each milestone
/// (kept only when all were reached).
#[derive(Clone, Debug)]
pub struct Outcome {
    pub code: Option<i32>,
    pub milestones_ms: Vec<u64>,
}

/// The number of milestones of a start-up.
pub const MILESTONE_COUNT: usize = 7;

/// What marks each milestone in the game's output (noted in a real
/// latest.log of the pack): the first line holding it.
pub open spec fn milestone_pattern(i: int) -> Seq<char> {
    if i == 0 {
        "ModLauncher running"@
    } else if i == 1 {
        "Launching target"@
    } else if i == 2 {
        "Setting user:"@
    } else if i == 3 {
        "[modloading-worker-"@
    } else if i == 4 {
        "Reloading ResourceManager"@
    } else if i == 5 {
        "textures/atlas/blocks.png-atlas"@
    } else {
        "resource reload: FINISHED"@
    }
}

/// What each milestone is shown as.
pub open spec fn milestone_label(i: int) -> Seq<char> {
    if i == 0 {
        "Démarrage de Java"@
    } else if i == 1 {
        "Mods trouvés"@
    } else if i == 2 {
        "Fenêtre du jeu"@
    } else if i == 3 {
        "Construction des mods"@
    } else if i == 4 {
        "Chargement des ressources"@
    } else if i == 5 {
        "Textures"@
    } else {
        "Menu"@
    }
}

fn milestone(i: usize) -> (r: (&'static str, &'static str))
    requires
        i < MILESTONE_COUNT,
    ensures
        r.0@ == milestone_pattern(i as int),
        r.1@ == milestone_label(i as int),
{
    if i == 0 {
        ("ModLauncher running", "Démarrage de Java")
    } else if i == 1 {
        ("Launching target", "Mods trouvés")
    } else if i == 2 {
        ("Setting user:", "Fenêtre du jeu")
    } else if i == 3 {
        ("[modloading-worker-", "Construction des mods")
    } else if i == 4 {
        ("Reloading ResourceManager", "Chargement des ressources")
    } else if i == 5 {
        ("textures/atlas/blocks.png-atlas", "Textures")
    } else {
        ("resource reload: FINISHED", "Menu")
    }
}

/// Reads one line of the game's output, `elapsed_ms` after the start: if it
/// holds the next milestone, its time is noted and the events to send are
/// returned (the milestone, and "game ready" after the last one).
pub fn on_game_line(reached: &mut Vec<u64>, line: &str, elapsed_ms: u64, expected_ms: u64) -> (events: Vec<Event>)
    ensures
        if old(reached)@.len() < MILESTONE_COUNT && contains(line@, milestone_pattern(old(reached)@.len() as int)) {
            &&& final(reached)@ == old(reached)@.push(elapsed_ms)
            &&& events@.len() == if old(reached)@.len() + 1 == MILESTONE_COUNT { 2int } else { 1int }
            &&& (events@[0] matches Event::Milestone { index, count, label, elapsed_ms: e, expected_ms: x }
                && index == old(reached)@.len() && count == MILESTONE_COUNT && label@ == milestone_label(index as int)
                && e == elapsed_ms && x == expected_ms)
            &&& old(reached)@.len() + 1 == MILESTONE_COUNT ==> (events@[1] matches Event::GameReady { elapsed_ms: e }
                && e == elapsed_ms)
        } else {
            &&& final(reached)@ == old(reached)@
            &&& events@.len() == 0
        },
{
    let next = reached.len();
    let mut events: Vec<Event> = Vec::new();
    if next < MILESTONE_COUNT {
        let (pattern, label) = milestone(next);
        if contains_str(line, pattern) {
            reached.push(elapsed_ms);
            events.push(
                Event::Milestone {
                    index: next,
                    count: MILESTONE_COUNT,
                    label: label.to_owned(),
                    elapsed_ms,
                    expected_ms,
                },
            );
            if next == MILESTONE_COUNT - 1 {
                events.push(Event::GameReady { elapsed_ms });
            }
        }
    }
    events
}

/// The expected length of a start-up: the last milestone of the previous
/// launch, 0 if unknown.
pub fn expected_ms(last_milestones_ms: &Vec<u64>) -> (r: u64)
    ensures
        r == if last_milestones_ms@.len() > 0 { last_milestones_ms@.last() } else { 0 },
{
    if last_milestones_ms.len() > 0 {
        last_milestones_ms[last_milestones_ms.len() - 1]
    } else {
        0
    }
}

/// How the launch ended: the milestones are kept only if all were reached.
pub fn outcome(code: Option<i32>, reached: Vec<u64>) -> (o: Outcome)
    ensures
        o.code == code,
        o.milestones_ms@ == if reached@.len() == MILESTONE_COUNT { reached@ } else { Seq::empty() },
{
    if reached.len() == MILESTONE_COUNT {
        Outcome { code, milestones_ms: reached }
    } else {
        Outcome { code, milestones_ms: Vec::new() }
    }
}

/// The session type for the game: `legacy` for an offline session (token
/// `0`), `msa` for a Microsoft account.
pub fn user_type(access_token: &str) -> (r: &'static str)
    ensures
        r@ == if access_token@ == "0"@ { "legacy"@ } else { "msa"@ },
{
    if str_eq(access_token, "0") {
        "legacy"
    } else {
        "msa"
    }
}

/// The game's arguments added to join the pack's server directly.
pub fn quick_play_args(join_server: bool) -> (r: Vec<String>)
    ensures
        join_server ==> r@.len() == 2 && r@[0]@ == "--quickPlayMultiplayer"@ && r@[1]@
            == "play.turi-industries.eu:25565"@,
        !join_server ==> r@.len() == 0,
{
    let mut r: Vec<String> = Vec::new();
    if join_server {
        r.push("--quickPlayMultiplayer".to_owned());
        r.push("play.turi-industries.eu:25565".to_owned());
    }
    r
}

/// The lines of `options.txt` asking for full screen.
pub open spec fn asks_fullscreen(lines: Seq<Seq<char>>) -> bool {
    exists|i: int| 0 <= i < lines.len() && spec_trim(#[trigger] lines[i]) == "fullscreen:true"@
}

/// The lines of `options.txt` kept: all but the `fullscreen:` ones.
pub open spec fn without_fullscreen(lines: Seq<Seq<char>>) -> Seq<Seq<char>>
    decreases lines.len(),
{
    if lines.len() == 0 {
        Seq::empty()
    } else if starts_with(lines.last(), "fullscreen:"@) {
        without_fullscreen(lines.drop_last())
    } else {
        without_fullscreen(lines.drop_last()).push(lines.last())
    }
}

/// Lines written out, each followed by `\n`.
pub open spec fn unlines(lines: Seq<Seq<char>>) -> Seq<char>
    decreases lines.len(),
{
    if lines.len() == 0 {
        Seq::empty()
    } else {
        unlines(lines.drop_last()) + lines.last() + "\n"@
    }
}

/// `options.txt` once the game is made to start windowed: the same lines
/// without `fullscreen:`, then `fullscreen:false`.
pub open spec fn spec_windowed(options: Seq<char>) -> Seq<char> {
    unlines(without_fullscreen(spec_lines(options)).push("fullscreen:false"@))
}

/// The game ALWAYS starts windowed; full screen comes after loading (a
/// script of the pack does it). The player's choice is read from
/// `options.txt` (what the preset just wrote there, or what the player set
/// in game) and handed to the script: returns the new `options.txt` and
/// whether full screen is wanted.
pub fn windowed_until_loaded(options: &str) -> (r: (String, bool))
    ensures
        r.0@ == spec_windowed(options@),
        r.1 == asks_fullscreen(spec_lines(options@)),
{
    let lines = lines_of(options);
    let ghost ls = strings_of(lines@);
    let mut wants = false;
    let mut out = String::new();
    let mut kept: Ghost<Seq<Seq<char>>> = Ghost(Seq::empty());
    let mut i: usize = 0;
    while i < lines.len()
        invariant
            i <= lines@.len(),
            ls == strings_of(lines@),
            wants == exists|j: int| 0 <= j < i && spec_trim(#[trigger] ls[j]) == "fullscreen:true"@,
            kept@ == without_fullscreen(ls.take(i as int)),
            out@ == unlines(kept@),
        decreases lines.len() - i,
    {
        let ghost t = ls.take(i + 1);
        assert(t.drop_last() =~= ls.take(i as int));
        assert(t.last() == ls[i as int]);
        assert(ls[i as int] == lines@[i as int]@);
        let l = lines[i].as_str();
        let tl = trim(l);
        if str_eq(tl.as_str(), "fullscreen:true") {
            wants = true;
        }
        if !starts_with_str(l, "fullscreen:") {
            out.append(l);
            out.append("\n");
            proof {
                kept@ = kept@.push(ls[i as int]);
                assert(kept@.drop_last() =~= without_fullscreen(ls.take(i as int)));
            }
        }
        i = i + 1;
    }
    assert(ls.take(ls.len() as int) =~= ls);
    out.append("fullscreen:false");
    out.append("\n");
    proof {
        assert(kept@.push("fullscreen:false"@).drop_last() =~= kept@);
    }
    (out, wants)
}

/// The lines kept hold no `fullscreen:` line.
proof fn lemma_without_fullscreen(lines: Seq<Seq<char>>)
    ensures
        forall|i: int| 0 <= i < without_fullscreen(lines).len() ==> !starts_with(#[trigger] without_fullscreen(lines)[i], "fullscreen:"@),
    decreases lines.len(),
{
    if lines.len() > 0 {
        lemma_without_fullscreen(lines.drop_last());
        let p = without_fullscreen(lines.drop_last());
        let w = without_fullscreen(lines);
        if !starts_with(lines.last(), "fullscreen:"@) {
            assert forall|i: int| 0 <= i < w.len() implies !starts_with(#[trigger] w[i], "fullscreen:"@) by {
                if i < p.len() {
                    assert(w[i] == p[i]);
                }
            }
        }
    }
}

/// The game always starts windowed: the only `fullscreen:` line of the
/// options written is the last one, `fullscreen:false`.
pub proof fn lemma_starts_windowed(options: Seq<char>)
    ensures
        ({
            let l = without_fullscreen(spec_lines(options)).push("fullscreen:false"@);
            &&& spec_windowed(options) == unlines(l)
            &&& l.last() == "fullscreen:false"@
            &&& forall|i: int| 0 <= i < l.len() - 1 ==> !starts_with(#[trigger] l[i], "fullscreen:"@)
        }),
{
    let w = without_fullscreen(spec_lines(options));
    let l = w.push("fullscreen:false"@);
    lemma_without_fullscreen(spec_lines(options));
    assert forall|i: int| 0 <= i < l.len() - 1 implies !starts_with(#[trigger] l[i], "fullscreen:"@) by {
        assert(l[i] == w[i]);
    }
}

/// Written out, the first line comes first.
proof fn lemma_unlines_front(ls: Seq<Seq<char>>)
    requires
        ls.len() > 0,
    ensures
        unlines(ls) == ls[0] + seq!['\n'] + unlines(ls.drop_first()),
    decreases ls.len(),
{
    reveal_strlit("\n");
    assert("\n"@ =~= seq!['\n']);
    if ls.len() == 1 {
        assert(ls.drop_last() =~= Seq::<Seq<char>>::empty());
        assert(ls.drop_first() =~= Seq::<Seq<char>>::empty());
        assert(unlines(ls.drop_last()) =~= Seq::<char>::empty());
        assert(unlines(ls.drop_first()) =~= Seq::<char>::empty());
        assert(ls.last() == ls[0]);
        assert(unlines(ls) =~= ls[0] + seq!['\n']);
        assert(ls[0] + seq!['\n'] + unlines(ls.drop_first()) =~= ls[0] + seq!['\n']);
    } else {
        lemma_unlines_front(ls.drop_last());
        assert(ls.drop_last().drop_first() =~= ls.drop_first().drop_last());
        assert(ls.drop_last()[0] == ls[0]);
        assert(ls.drop_first().last() == ls.last());
        assert(unlines(ls) =~= ls[0] + seq!['\n'] + unlines(ls.drop_first()));
    }
}

/// Lines without `\n`, none ending with `\r`, written out then read again,
/// are the same lines.
proof fn lemma_lines_unlines(ls: Seq<Seq<char>>)
    requires
        forall|i: int, j: int| 0 <= i < ls.len() && 0 <= j < ls[i].len() ==> #[trigger] ls[i][j] != '\n',
        forall|i: int| 0 <= i < ls.len() ==> !(#[trigger] ls[i].len() > 0 && ls[i].last() == '\r'),
    ensures
        spec_lines(unlines(ls)) == ls,
    decreases ls.len(),
{
    if ls.len() == 0 {
        assert(unlines(ls) =~= Seq::<char>::empty());
        assert(spec_lines(Seq::<char>::empty()) =~= ls);
    } else {
        let rest = ls.drop_first();
        assert forall|i: int, j: int| 0 <= i < rest.len() && 0 <= j < rest[i].len() implies #[trigger] rest[i][j] != '\n' by {
            assert(rest[i] == ls[i + 1]);
        }
        assert forall|i: int| 0 <= i < rest.len() implies !(#[trigger] rest[i].len() > 0 && rest[i].last() == '\r') by {
            assert(rest[i] == ls[i + 1]);
        }
        lemma_lines_unlines(rest);
        lemma_unlines_front(ls);
        assert forall|j: int| 0 <= j < ls[0].len() implies #[trigger] ls[0][j] != '\n' by {}
        assert(!(ls[0].len() > 0 && ls[0].last() == '\r'));
        lemma_lines_of_line(ls[0], unlines(rest));
        assert(strip_cr(ls[0]) == ls[0]);
        assert(seq![ls[0]] + rest =~= ls);
    }
}

/// Lines none of which starts with `fullscreen:` are all kept.
proof fn lemma_without_fullscreen_keeps(ls: Seq<Seq<char>>)
    requires
        forall|i: int| 0 <= i < ls.len() ==> !starts_with(#[trigger] ls[i], "fullscreen:"@),
    ensures
        without_fullscreen(ls) == ls,
    decreases ls.len(),
{
    if ls.len() > 0 {
        assert(!starts_with(ls[ls.len() - 1], "fullscreen:"@));
        assert forall|i: int| 0 <= i < ls.drop_last().len() implies !starts_with(#[trigger] ls.drop_last()[i], "fullscreen:"@) by {
            assert(ls.drop_last()[i] == ls[i]);
        }
        lemma_without_fullscreen_keeps(ls.drop_last());
        assert(ls.drop_last().push(ls.last()) =~= ls);
    }
}

/// Making the game start windowed twice gives what once gives (for options
/// whose lines do not end with a carriage return): the launcher does it at
/// each launch.
pub proof fn lemma_windowed_twice(options: Seq<char>)
    requires
        forall|i: int| 0 <= i < spec_lines(options).len() ==> !(#[trigger] spec_lines(options)[i].len() > 0
            && spec_lines(options)[i].last() == '\r'),
    ensures
        spec_windowed(spec_windowed(options)) == spec_windowed(options),
{
    reveal_strlit("fullscreen:false");
    reveal_strlit("fullscreen:");
    let ls = spec_lines(options);
    let w = without_fullscreen(ls);
    let ff = "fullscreen:false"@;
    let l = w.push(ff);
    lemma_lines_without_newline(options);
    lemma_without_fullscreen(ls);
    lemma_without_fullscreen_subseq(ls);
    assert forall|i: int, j: int| 0 <= i < l.len() && 0 <= j < l[i].len() implies #[trigger] l[i][j] != '\n' by {
        if i < w.len() {
            let k = choose|k: int| 0 <= k < ls.len() && ls[k] == w[i];
            assert(ls[k][j] == l[i][j]);
        } else {
            assert(l[i] == ff);
        }
    }
    assert forall|i: int| 0 <= i < l.len() implies !(#[trigger] l[i].len() > 0 && l[i].last() == '\r') by {
        if i < w.len() {
            let k = choose|k: int| 0 <= k < ls.len() && ls[k] == w[i];
            assert(l[i] == ls[k]);
        } else {
            assert(l[i] == ff);
            assert(ff.last() == 'e');
        }
    }
    lemma_lines_unlines(l);
    assert(spec_lines(spec_windowed(options)) == l);
    assert(starts_with(ff, "fullscreen:"@)) by {
        assert(ff.subrange(0, 11) =~= "fullscreen:"@);
    }
    assert(l.drop_last() =~= w);
    assert(without_fullscreen(l) == without_fullscreen(w));
    lemma_without_fullscreen_keeps(w);
}

/// Each line kept is one of the lines.
proof fn lemma_without_fullscreen_subseq(ls: Seq<Seq<char>>)
    ensures
        forall|i: int| 0 <= i < without_fullscreen(ls).len() ==> exists|k: int| 0 <= k < ls.len() && ls[k] == #[trigger] without_fullscreen(ls)[i],
    decreases ls.len(),
{
    if ls.len() > 0 {
        let p = ls.drop_last();
        lemma_without_fullscreen_subseq(p);
        let w = without_fullscreen(ls);
        let wp = without_fullscreen(p);
        assert forall|i: int| 0 <= i < w.len() implies exists|k: int| 0 <= k < ls.len() && ls[k] == #[trigger] w[i] by {
            if i < wp.len() {
                assert(w[i] == wp[i]);
                let k = choose|k: int| 0 <= k < p.len() && p[k] == #[trigger] wp[i];
                assert(ls[k] == p[k]);
            } else {
                assert(w[i] == ls.last());
                assert(ls[ls.len() - 1] == w[i]);
            }
        }
    }
}

/// What is handed to the pack's script: whether full screen is wanted.
pub fn launch_json(fullscreen: bool) -> (r: &'static str)
    ensures
        r@ == if fullscreen { "{\"fullscreen\":true}"@ } else { "{\"fullscreen\":false}"@ },
{
    if fullscreen {
        "{\"fullscreen\":true}"
    } else {
        "{\"fullscreen\":false}"
    }
}

} // verus!
