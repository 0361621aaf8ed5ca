//! The run list: a text that gives each machine its scripts, phase by phase.
//!
//! The text is read line by line. A line that holds `¥ SETUP` starts a setup
//! phase, and one that holds `¥ RUN` a run phase. A line that holds `¥¥` with
//! something behind it names the machines that the lines below are for: the
//! names stand behind the first `¥¥`, separated by blanks or tabs. Any other
//! line belongs to the script of the machines named last.

use vstd::prelude::*;
use crate::utils::strmap::StringMap;
use crate::utils::text::{chars_of, push_char, string_of, views};

verus! {

/// The kind of a phase.
#[derive(Clone, Copy, Debug, PartialEq, Eq, Structural)]
pub enum StepType {
    Setup,
    Run,
}

impl StepType {
    /// The name of the kind: `setup` or `run`.
    pub fn to_string(&self) -> (r: String)
        ensures
            r@ == match *self {
                StepType::Setup => "setup"@,
                StepType::Run => "run"@,
            },
    {
        match self {
            StepType::Setup => "setup".to_string(),
            StepType::Run => "run".to_string(),
        }
    }
}

/// The text that marks the start of a setup phase.
pub open spec fn setup_marker() -> Seq<char> {
    seq!['¥', ' ', 'S', 'E', 'T', 'U', 'P']
}

/// The text that marks the start of a run phase.
pub open spec fn run_marker() -> Seq<char> {
    seq!['¥', ' ', 'R', 'U', 'N']
}

/// The text that marks a list of machines.
pub open spec fn machine_marker() -> Seq<char> {
    seq!['¥', '¥']
}

/// Whether `pat` stands in `s` at place `i`.
pub open spec fn has_at(s: Seq<char>, pat: Seq<char>, i: int) -> bool {
    0 <= i && i + pat.len() <= s.len() && s.subrange(i, i + pat.len()) == pat
}

/// The first place at or behind `from` where `pat` stands in `s`; the length
/// of `s` where there is none.
pub open spec fn first_at(s: Seq<char>, pat: Seq<char>, from: int) -> int
    decreases s.len() - from,
{
    if from < 0 || from >= s.len() {
        s.len() as int
    } else if has_at(s, pat, from) {
        from
    } else {
        first_at(s, pat, from + 1)
    }
}

/// Whether `pat` stands somewhere in `s`.
pub open spec fn holds(s: Seq<char>, pat: Seq<char>) -> bool {
    first_at(s, pat, 0) < s.len()
}

/// What a line is.
#[derive(Clone, Copy, Debug, PartialEq, Eq, Structural)]
pub enum LineKind {
    /// The line starts a setup phase.
    Setup,
    /// The line starts a run phase.
    Run,
    /// The line names machines.
    Machines,
    /// The line belongs to a script.
    Script,
}

/// What the line `s` is. A line names machines where something other than
/// the end of the line stands behind its first `¥¥`.
pub open spec fn kind_of(s: Seq<char>) -> LineKind {
    if holds(s, setup_marker()) {
        LineKind::Setup
    } else if holds(s, run_marker()) {
        LineKind::Run
    } else if first_at(s, machine_marker(), 0) + 2 < s.len() && s[first_at(s, machine_marker(), 0)
        + 2] != '\n' {
        LineKind::Machines
    } else {
        LineKind::Script
    }
}

/// `acc`, then the words of `s` from place `i` on: the runs of characters
/// between blanks and tabs, up to the end of the line. `cur` is the word that
/// has been begun.
pub open spec fn words_from(s: Seq<char>, i: int, cur: Seq<char>, acc: Seq<Seq<char>>) -> Seq<
    Seq<char>,
>
    decreases s.len() - i,
{
    let closed = if cur.len() > 0 {
        acc.push(cur)
    } else {
        acc
    };
    if i < 0 || i >= s.len() || s[i] == '\n' || s[i] == '\r' {
        closed
    } else if s[i] == ' ' || s[i] == '\t' {
        words_from(s, i + 1, Seq::empty(), closed)
    } else {
        words_from(s, i + 1, cur.push(s[i]), acc)
    }
}

/// The machines that a line names: the words behind its first `¥¥`.
pub open spec fn machines_of(s: Seq<char>) -> Seq<Seq<char>> {
    words_from(s, first_at(s, machine_marker(), 0) + 2, Seq::empty(), Seq::empty())
}

/// `step` with `script` given to each of `machines`.
pub open spec fn flushed(
    step: Map<Seq<char>, Seq<char>>,
    machines: Seq<Seq<char>>,
    script: Seq<char>,
) -> Map<Seq<char>, Seq<char>>
    decreases machines.len(),
{
    if machines.len() == 0 {
        step
    } else {
        flushed(step, machines.drop_last(), script).insert(machines.last(), script)
    }
}

/// What has been read of a run list.
pub struct ParserState {
    /// The kind of the phase that is being read, if one was begun.
    pub phase: Option<StepType>,
    /// The machines named last.
    pub machines: Seq<Seq<char>>,
    /// The script lines read since the last marker.
    pub script: Seq<char>,
    /// The scripts of the phase that is being read.
    pub step: Map<Seq<char>, Seq<char>>,
    /// The phases that are complete.
    pub done: Seq<(StepType, Map<Seq<char>, Seq<char>>)>,
}

/// The state before the first line.
pub open spec fn start_state() -> ParserState {
    ParserState {
        phase: None,
        machines: Seq::empty(),
        script: Seq::empty(),
        step: Map::empty(),
        done: Seq::empty(),
    }
}

/// The scripts of the phase that is being read, the script lines read last
/// included where there are any.
pub open spec fn step_with_script(st: ParserState) -> Map<Seq<char>, Seq<char>> {
    if st.script.len() > 0 {
        flushed(st.step, st.machines, st.script)
    } else {
        st.step
    }
}

/// The state after one more line. A marker first gives the script lines read
/// since the last marker to the machines named last. A phase marker then
/// closes the phase that is being read and begins a new, empty one; the
/// machines named last stay. A script line outside any phase is dropped.
pub open spec fn after_line(st: ParserState, line: Seq<char>) -> ParserState {
    match kind_of(line) {
        LineKind::Setup | LineKind::Run => ParserState {
            phase: Some(
                if kind_of(line) == LineKind::Setup {
                    StepType::Setup
                } else {
                    StepType::Run
                },
            ),
            machines: st.machines,
            script: Seq::empty(),
            step: Map::empty(),
            done: match st.phase {
                Some(p) => st.done.push((p, step_with_script(st))),
                None => st.done,
            },
        },
        LineKind::Machines => ParserState {
            phase: st.phase,
            machines: machines_of(line),
            script: Seq::empty(),
            step: step_with_script(st),
            done: st.done,
        },
        LineKind::Script => ParserState {
            phase: st.phase,
            machines: st.machines,
            script: if st.phase is Some {
                st.script + line
            } else {
                st.script
            },
            step: st.step,
            done: st.done,
        },
    }
}

/// The phases once the text has ended: the phase that is being read is
/// closed, and the script lines read last go to the machines named last, even
/// where there are none. A text without any phase marker has no phases.
pub open spec fn at_end(st: ParserState) -> Seq<(StepType, Map<Seq<char>, Seq<char>>)> {
    match st.phase {
        Some(p) => st.done.push((p, flushed(st.step, st.machines, st.script))),
        None => st.done,
    }
}

/// The place behind the line that starts at `from`: behind its line feed, or
/// the end of the text.
pub open spec fn line_end(s: Seq<char>, from: int) -> int
    decreases s.len() - from,
{
    if from < 0 || from >= s.len() {
        s.len() as int
    } else if s[from] == '\n' {
        from + 1
    } else {
        line_end(s, from + 1)
    }
}

/// The state after the lines of `s` from place `from` on, read in state `st`.
pub open spec fn after_text(st: ParserState, s: Seq<char>, from: int) -> ParserState
    decreases s.len() - from,
{
    if from < 0 || from >= s.len() {
        st
    } else {
        let end = line_end(s, from);
        if end <= from || end > s.len() {
            st
        } else {
            after_text(after_line(st, s.subrange(from, end)), s, end)
        }
    }
}

/// The phases of a run list, in order, each with the script of each machine.
pub open spec fn run_list(s: Seq<char>) -> Seq<(StepType, Map<Seq<char>, Seq<char>>)> {
    at_end(after_text(start_state(), s, 0))
}

/// The line that starts at `from` ends behind `from`, inside the text, at
/// the first line feed or at the end of the text.
pub proof fn lemma_line_end(s: Seq<char>, from: int, end: int)
    requires
        0 <= from < end <= s.len(),
        forall|k: int| from <= k < end - 1 ==> s[k] != '\n',
        s[end - 1] == '\n' || end == s.len(),
    ensures
        line_end(s, from) == end,
    decreases end - from,
{
    if s[from] != '\n' {
        if from + 1 < end {
            lemma_line_end(s, from + 1, end);
        }
    }
}

/// Whether `pat` stands in `line` at place `i`.
pub fn stands_at(line: &Vec<char>, pat: &Vec<char>, i: usize) -> (r: bool)
    ensures
        r == has_at(line@, pat@, i as int),
{
    if pat.len() > line.len() || i > line.len() - pat.len() {
        return false;
    }
    let mut k: usize = 0;
    let total = line.len();
    while k < pat.len()
        invariant
            k <= pat@.len(),
            total == line@.len(),
            i + pat@.len() <= line@.len(),
            forall|j: int| 0 <= j < k ==> line@[i + j] == pat@[j],
        decreases pat@.len() - k,
    {
        if line[i + k] != pat[k] {
            proof {
                assert(line@.subrange(i as int, i + pat@.len())[k as int] == line@[i + k]);
            }
            return false;
        }
        k = k + 1;
    }
    proof {
        assert(line@.subrange(i as int, i + pat@.len()) =~= pat@);
    }
    true
}

/// The first place where `pat` stands in `line`; the length of `line` where
/// there is none.
pub fn find_first(line: &Vec<char>, pat: &Vec<char>) -> (r: usize)
    ensures
        r == first_at(line@, pat@, 0),
        r <= line@.len(),
{
    let mut i: usize = 0;
    while i < line.len()
        invariant
            i <= line@.len(),
            first_at(line@, pat@, 0) == first_at(line@, pat@, i as int),
        decreases line@.len() - i,
    {
        if stands_at(line, pat, i) {
            return i;
        }
        i = i + 1;
    }
    i
}

/// The words of `line` from place `from` on: the runs of characters between
/// blanks and tabs, up to the end of the line.
pub fn words(line: &Vec<char>, from: usize) -> (r: Vec<String>)
    ensures
        views(r@) == words_from(line@, from as int, Seq::empty(), Seq::empty()),
{
    let mut acc: Vec<String> = Vec::new();
    let mut cur: Vec<char> = Vec::new();
    let mut i: usize = from;
    proof {
        assert(views(acc@) =~= Seq::<Seq<char>>::empty());
    }
    while i < line.len() && line[i] != '\n' && line[i] != '\r'
        invariant
            from <= i,
            words_from(line@, from as int, Seq::empty(), Seq::empty()) == words_from(
                line@,
                i as int,
                cur@,
                views(acc@),
            ),
        decreases line@.len() - i,
    {
        let c = line[i];
        if c == ' ' || c == '\t' {
            if cur.len() > 0 {
                let ghost before = views(acc@);
                acc.push(string_of(&cur));
                proof {
                    assert(views(acc@) =~= before.push(cur@));
                }
                cur = Vec::new();
            }
            proof {
                assert(cur@ =~= Seq::<char>::empty());
            }
        } else {
            cur.push(c);
        }
        i = i + 1;
    }
    if cur.len() > 0 {
        let ghost before = views(acc@);
        acc.push(string_of(&cur));
        proof {
            assert(views(acc@) =~= before.push(cur@));
        }
    }
    acc
}

/// Gives `script` to each of `machines` in `step`.
pub fn flush(step: &mut StringMap, machines: &Vec<String>, script: &String)
    requires
        old(step).wf(),
    ensures
        final(step).wf(),
        final(step)@ == flushed(old(step)@, views(machines@), script@),
{
    let mut k: usize = 0;
    while k < machines.len()
        invariant
            k <= machines@.len(),
            step.wf(),
            step@ == flushed(old(step)@, views(machines@).subrange(0, k as int), script@),
        decreases machines@.len() - k,
    {
        step.insert(machines[k].clone(), script.clone());
        proof {
            let pre1 = views(machines@).subrange(0, k + 1);
            assert(pre1.drop_last() =~= views(machines@).subrange(0, k as int));
            assert(pre1.last() == machines@[k as int]@);
        }
        k = k + 1;
    }
    proof {
        assert(views(machines@).subrange(0, k as int) =~= views(machines@));
    }
}

/// The phases with their maps as mathematical maps.
pub open spec fn steps_view(v: Seq<(StepType, StringMap)>) -> Seq<
    (StepType, Map<Seq<char>, Seq<char>>),
> {
    Seq::new(v.len(), |i: int| (v[i].0, v[i].1@))
}

/// What a line is.
pub fn classify(line: &Vec<char>) -> (r: LineKind)
    ensures
        r == kind_of(line@),
{
    let mut setup: Vec<char> = Vec::new();
    setup.push('¥');
    setup.push(' ');
    setup.push('S');
    setup.push('E');
    setup.push('T');
    setup.push('U');
    setup.push('P');
    let mut run: Vec<char> = Vec::new();
    run.push('¥');
    run.push(' ');
    run.push('R');
    run.push('U');
    run.push('N');
    let mut machine: Vec<char> = Vec::new();
    machine.push('¥');
    machine.push('¥');
    proof {
        assert(setup@ =~= setup_marker());
        assert(run@ =~= run_marker());
        assert(machine@ =~= machine_marker());
    }
    if find_first(line, &setup) < line.len() {
        LineKind::Setup
    } else if find_first(line, &run) < line.len() {
        LineKind::Run
    } else {
        let at = find_first(line, &machine);
        let total = line.len();
        if total >= 3 && at < total - 2 && line[at + 2] != '\n' {
            LineKind::Machines
        } else {
            LineKind::Script
        }
    }
}

/// The machines that a line names: the words behind its first `¥¥`.
pub fn machine_names(line: &Vec<char>) -> (r: Vec<String>)
    requires
        kind_of(line@) == LineKind::Machines,
    ensures
        views(r@) == machines_of(line@),
{
    let mut machine: Vec<char> = Vec::new();
    machine.push('¥');
    machine.push('¥');
    proof {
        assert(machine@ =~= machine_marker());
    }
    let at = find_first(line, &machine);
    let total = line.len();
    words(line, at + 2)
}

/// Reads a run list. Gives its phases in order, each with its kind and the
/// script of each machine.
pub fn parse_run_list(text: &str) -> (r: Vec<(StepType, StringMap)>)
    ensures
        steps_view(r@) == run_list(text@),
        forall|i: int| 0 <= i < r@.len() ==> (#[trigger] r@[i]).1.wf(),
{
    let chars = chars_of(text);
    let n = chars.len();
    let ghost s = text@;
    let mut ret: Vec<(StepType, StringMap)> = Vec::new();
    let mut state: Option<StepType> = None;
    let mut current_machine_list: Vec<String> = Vec::new();
    let mut current_script = String::new();
    let mut current_step = StringMap::new();
    let mut pos: usize = 0;
    proof {
        assert(views(current_machine_list@) =~= Seq::<Seq<char>>::empty());
        assert(steps_view(ret@) =~= Seq::<(StepType, Map<Seq<char>, Seq<char>>)>::empty());
    }
    while pos < n
        invariant
            pos <= n,
            n == s.len(),
            chars@ == s,
            s == text@,
            current_step.wf(),
            forall|i: int| 0 <= i < ret@.len() ==> (#[trigger] ret@[i]).1.wf(),
            run_list(s) == at_end(
                after_text(
                    ParserState {
                        phase: state,
                        machines: views(current_machine_list@),
                        script: current_script@,
                        step: current_step@,
                        done: steps_view(ret@),
                    },
                    s,
                    pos as int,
                ),
            ),
        decreases n - pos,
    {
        // the line that starts here
        let mut line: Vec<char> = Vec::new();
        let mut end: usize = pos;
        let mut closed = false;
        while end < n && !closed
            invariant
                pos <= end <= n,
                n == s.len(),
                chars@ == s,
                line@ == s.subrange(pos as int, end as int),
                forall|k: int| pos <= k < end - 1 ==> s[k] != '\n',
                closed ==> end > pos && s[end - 1] == '\n',
                !closed ==> forall|k: int| pos <= k < end ==> s[k] != '\n',
            decreases n - end, if closed { 0int } else { 1int },
        {
            let c = chars[end];
            line.push(c);
            if c == '\n' {
                closed = true;
            }
            proof {
                assert(line@ =~= s.subrange(pos as int, end + 1));
            }
            end = end + 1;
        }
        proof {
            lemma_line_end(s, pos as int, end as int);
        }
        let ghost st = ParserState {
            phase: state,
            machines: views(current_machine_list@),
            script: current_script@,
            step: current_step@,
            done: steps_view(ret@),
        };
        let kind = classify(&line);
        match kind {
            LineKind::Setup | LineKind::Run => {
                if !current_script.as_str().is_empty() {
                    flush(&mut current_step, &current_machine_list, &current_script);
                }
                let finished = current_step;
                current_step = StringMap::new();
                match state {
                    Some(p) => {
                        let ghost before = steps_view(ret@);
                        ret.push((p, finished));
                        proof {
                            assert(steps_view(ret@) =~= before.push((p, step_with_script(st))));
                        }
                    },
                    None => {},
                }
                current_script = String::new();
                state = Some(
                    match kind {
                        LineKind::Setup => StepType::Setup,
                        _ => StepType::Run,
                    },
                );
            },
            LineKind::Machines => {
                if !current_script.as_str().is_empty() {
                    flush(&mut current_step, &current_machine_list, &current_script);
                }
                current_script = String::new();
                current_machine_list = machine_names(&line);
            },
            LineKind::Script => {
                if state.is_some() {
                    let ghost before = current_script@;
                    let mut k: usize = 0;
                    while k < line.len()
                        invariant
                            k <= line@.len(),
                            current_script@ == before + line@.subrange(0, k as int),
                        decreases line@.len() - k,
                    {
                        push_char(&mut current_script, line[k]);
                        proof {
                            assert(line@.subrange(0, k + 1) =~= line@.subrange(0, k as int).push(
                                line@[k as int],
                            ));
                        }
                        k = k + 1;
                    }
                    proof {
                        assert(line@.subrange(0, k as int) =~= line@);
                    }
                }
            },
        }
        proof {
            let st1 = ParserState {
                phase: state,
                machines: views(current_machine_list@),
                script: current_script@,
                step: current_step@,
                done: steps_view(ret@),
            };
            assert(st1.script =~= after_line(st, line@).script);
            assert(st1 == after_line(st, line@));
        }
        pos = end;
    }
    match state {
        Some(p) => {
            flush(&mut current_step, &current_machine_list, &current_script);
            let ghost before = steps_view(ret@);
            ret.push((p, current_step));
            proof {
                assert(steps_view(ret@) =~= before.push((p, current_step@)));
            }
        },
        None => {},
    }
    ret
}

} // verus!
