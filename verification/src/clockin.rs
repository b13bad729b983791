//! The semantic actions a log record can mean, the entries the reducer folds
//! them into, and the reducer itself.

use vstd::prelude::*;

use crate::date::{Date, DateV};
use crate::err::{LineErr, TokErr};
use crate::gob::{line_at, line_clock_actions, spec_actions};
use crate::groups::Groups;
use crate::s_time::STime;
use crate::text::clone_string_vec;

verus! {

/// One semantic action, as one record of the log spells it.
#[derive(Debug)]
pub enum ClockAction {
    /// `_name`: push a tag.
    AddTag(String),
    /// `__` or `__name`: clear the tags, or replace them with the one given.
    ClearTags(Option<String>),
    /// `H:M`: clock in.
    In(STime),
    /// `-H:M`: clock out.
    Out(STime),
    /// `H:M-H:M`: clock in and straight out.
    InOut(STime, STime),
    /// A bare name: switch the current job.
    SetJob(String),
    /// `D/M` or `D/M/Y`: set the current date; without a year the
    /// carried-forward year is meant.
    SetDate(i64, i64, Option<i64>),
    /// `=key:value` or `key=value`: set auxiliary numeric state, such as the
    /// year.
    SetNum(String, i64),
    /// `$name[member, ...]`: define a named group of job names.
    DefGroup(String, Vec<String>),
}

/// The mathematical value of a `ClockAction`.
pub ghost enum ActionV {
    AddTag(Seq<char>),
    ClearTags(Option<Seq<char>>),
    In(int),
    Out(int),
    InOut(int, int),
    SetJob(Seq<char>),
    SetDate(int, int, Option<int>),
    SetNum(Seq<char>, int),
    DefGroup(Seq<char>, Seq<Seq<char>>),
}

impl View for ClockAction {
    type V = ActionV;

    open spec fn view(&self) -> ActionV {
        match self {
            ClockAction::AddTag(s) => ActionV::AddTag(s@),
            ClockAction::ClearTags(o) => ActionV::ClearTags(
                match o {
                    Some(s) => Some(s@),
                    None => None,
                },
            ),
            ClockAction::In(t) => ActionV::In(t@),
            ClockAction::Out(t) => ActionV::Out(t@),
            ClockAction::InOut(a, b) => ActionV::InOut(a@, b@),
            ClockAction::SetJob(s) => ActionV::SetJob(s@),
            ClockAction::SetDate(d, m, y) => ActionV::SetDate(
                *d as int,
                *m as int,
                match y {
                    Some(v) => Some(*v as int),
                    None => None,
                },
            ),
            ClockAction::SetNum(k, v) => ActionV::SetNum(k@, *v as int),
            ClockAction::DefGroup(k, v) => ActionV::DefGroup(k@, v.deep_view()),
        }
    }
}

/// An action paired with the 1-based line and column it was read from.
#[derive(Debug)]
pub struct LineClockAction {
    pub line: usize,
    pub col: usize,
    pub action: ClockAction,
}

/// The mathematical value of a `LineClockAction`.
pub ghost struct LineActionV {
    pub line: int,
    pub col: int,
    pub action: ActionV,
}

impl View for LineClockAction {
    type V = LineActionV;

    open spec fn view(&self) -> LineActionV {
        LineActionV { line: self.line as int, col: self.col as int, action: self.action@ }
    }
}

impl DeepView for LineClockAction {
    type V = LineActionV;

    open spec fn deep_view(&self) -> LineActionV {
        self@
    }
}

/// Everything one clock-in carries: its time and the context in force when it
/// was read.
#[derive(Debug, PartialEq, Eq, Clone)]
pub struct InData {
    pub time: STime,
    pub date: Date,
    pub job: String,
    pub tags: Vec<String>,
    pub line: usize,
}

/// The mathematical value of an `InData`.
pub ghost struct InDataV {
    pub time: int,
    pub date: DateV,
    pub job: Seq<char>,
    pub tags: Seq<Seq<char>>,
    pub line: int,
}

impl View for InData {
    type V = InDataV;

    open spec fn view(&self) -> InDataV {
        InDataV {
            time: self.time@,
            date: self.date@,
            job: self.job@,
            tags: self.tags.deep_view(),
            line: self.line as int,
        }
    }
}

impl DeepView for InData {
    type V = InDataV;

    open spec fn deep_view(&self) -> InDataV {
        self@
    }
}

/// One resolved entry: a clock-in with its context, or a bare clock-out.
#[derive(Debug, PartialEq, Eq, Clone)]
pub enum Clockin {
    In(InData),
    Out(STime),
}

/// The mathematical value of a `Clockin`.
pub ghost enum ClockinV {
    In(InDataV),
    Out(int),
}

impl View for Clockin {
    type V = ClockinV;

    open spec fn view(&self) -> ClockinV {
        match self {
            Clockin::In(d) => ClockinV::In(d@),
            Clockin::Out(t) => ClockinV::Out(t@),
        }
    }
}

impl DeepView for Clockin {
    type V = ClockinV;

    open spec fn deep_view(&self) -> ClockinV {
        self@
    }
}

/// Everything a full parse of the log hands back: the resolved entries in
/// source order, and the group definitions.
pub struct AllData {
    pub clocks: Vec<Clockin>,
    pub groups: Groups,
}

/// The context the reducer carries forward from record to record.
pub ghost struct StateV {
    pub job: Seq<char>,
    pub date: DateV,
    pub tags: Seq<Seq<char>>,
    pub year: Option<int>,
    pub groups: Map<Seq<char>, Seq<Seq<char>>>,
}

/// What one reduction step leaves behind: the new context, the entries it
/// emitted, and the lines on which a date could not be resolved.
pub ghost struct StepResult {
    pub state: StateV,
    pub entries: Seq<ClockinV>,
    pub errs: Seq<int>,
}

/// The context before any record is read: job `General`, the placeholder
/// date of year 1, no tags, no year, no groups. A clock-in before any date
/// record carries that placeholder date.
pub open spec fn init_state() -> StateV {
    StateV {
        job: "General"@,
        date: DateV { year: 1, month: 1, day: 1 },
        tags: Seq::empty(),
        year: None,
        groups: Map::empty(),
    }
}

/// The reducer's transition table: how one action, read on `line`, moves the
/// context forward, what entries it emits, and whether it fails. A date with
/// no year when no year is known is recorded as an error and changes nothing;
/// every emitted clock-in snapshots the context at that moment.
pub open spec fn spec_step(st: StateV, a: ActionV, line: int) -> StepResult {
    match a {
        ActionV::SetJob(j) => StepResult {
            state: StateV { job: j, ..st },
            entries: Seq::empty(),
            errs: Seq::empty(),
        },
        ActionV::SetDate(d, m, yo) => match yo {
            Some(y) => StepResult {
                state: StateV { date: DateV { year: y, month: m, day: d }, ..st },
                entries: Seq::empty(),
                errs: Seq::empty(),
            },
            None => match st.year {
                Some(y) => StepResult {
                    state: StateV { date: DateV { year: y, month: m, day: d }, ..st },
                    entries: Seq::empty(),
                    errs: Seq::empty(),
                },
                None => StepResult { state: st, entries: Seq::empty(), errs: seq![line] },
            },
        },
        ActionV::AddTag(t) => StepResult {
            state: StateV { tags: st.tags.push(t), ..st },
            entries: Seq::empty(),
            errs: Seq::empty(),
        },
        ActionV::ClearTags(ro) => StepResult {
            state: StateV {
                tags: match ro {
                    Some(t) => seq![t],
                    None => Seq::empty(),
                },
                ..st
            },
            entries: Seq::empty(),
            errs: Seq::empty(),
        },
        ActionV::SetNum(k, v) => StepResult {
            state: if k == "year"@ {
                StateV { year: Some(v), ..st }
            } else {
                st
            },
            entries: Seq::empty(),
            errs: Seq::empty(),
        },
        ActionV::DefGroup(k, v) => StepResult {
            state: StateV { groups: st.groups.insert(k, v), ..st },
            entries: Seq::empty(),
            errs: Seq::empty(),
        },
        ActionV::In(t) => StepResult {
            state: st,
            entries: seq![
                ClockinV::In(
                    InDataV { time: t, date: st.date, job: st.job, tags: st.tags, line },
                ),
            ],
            errs: Seq::empty(),
        },
        ActionV::Out(t) => StepResult {
            state: st,
            entries: seq![ClockinV::Out(t)],
            errs: Seq::empty(),
        },
        ActionV::InOut(tin, tout) => StepResult {
            state: st,
            entries: seq![
                ClockinV::In(
                    InDataV { time: tin, date: st.date, job: st.job, tags: st.tags, line },
                ),
                ClockinV::Out(tout),
            ],
            errs: Seq::empty(),
        },
    }
}

/// The reducer folded over a whole action stream: entries and error lines in
/// encounter order, the context threaded through.
pub open spec fn spec_fold(acts: Seq<LineActionV>, st: StateV) -> StepResult
    decreases acts.len(),
{
    if acts.len() == 0 {
        StepResult { state: st, entries: Seq::empty(), errs: Seq::empty() }
    } else {
        let first = spec_step(st, acts[0].action, acts[0].line);
        let rest = spec_fold(acts.subrange(1, acts.len() as int), first.state);
        StepResult {
            state: rest.state,
            entries: first.entries + rest.entries,
            errs: first.errs + rest.errs,
        }
    }
}

/// Reads a date record (`D/M` or `D/M/Y`) from the front of `s`; a date
/// without a year takes `default_year`. Text after the date is ignored.
pub fn read_date(s: &str, default_year: i64) -> (r: Result<Date, TokErr>)
    ensures
        match crate::gob::date_at(s@, 0) {
            Some(((d, m, y), e)) => r matches Ok(dt) && dt@ == (DateV {
                year: match y {
                    Some(v) => v,
                    None => default_year as int,
                },
                month: m,
                day: d,
            }),
            None => r matches Err(e) && (e matches TokErr::Mess(msg) && msg@
                == "Could not read date"@),
        },
{
    let chars = crate::text::str_to_chars(s);
    match crate::gob::parse_date_at(&chars, 0) {
        Some(((d, m, y), _e)) => Ok(
            Date::new(
                match y {
                    Some(v) => v,
                    None => default_year,
                },
                m,
                d,
            ),
        ),
        None => Err(TokErr::Mess(String::from_str("Could not read date"))),
    }
}

impl ClockAction {
    /// The date this action sets, if it sets one; a date without a year takes
    /// `default_year`.
    pub fn as_date(&self, default_year: i64) -> (r: Option<Date>)
        ensures
            match self@ {
                ActionV::SetDate(d, m, yo) => r matches Some(dt) && dt@ == (DateV {
                    year: match yo {
                        Some(y) => y,
                        None => default_year as int,
                    },
                    month: m,
                    day: d,
                }),
                _ => r is None,
            },
    {
        match self {
            ClockAction::SetDate(d, m, Some(y)) => Some(Date::new(*y, *m, *d)),
            ClockAction::SetDate(d, m, None) => Some(Date::new(default_year, *m, *d)),
            _ => None,
        }
    }
}

/// Whether an action touches the tag list.
pub open spec fn is_tag_action(a: ActionV) -> bool {
    a matches ActionV::AddTag(_) || a matches ActionV::ClearTags(_)
}

/// Law: a `SetDate` carrying its own year, followed straight by an `In`,
/// yields exactly one entry, whose date is that date and whose time is that
/// clock-in time, with no error.
pub proof fn lemma_set_date_then_in(
    st: StateV,
    d: int,
    m: int,
    y: int,
    t: int,
    l1: int,
    c1: int,
    l2: int,
    c2: int,
)
    ensures
        ({
            let acts = seq![
                LineActionV { line: l1, col: c1, action: ActionV::SetDate(d, m, Some(y)) },
                LineActionV { line: l2, col: c2, action: ActionV::In(t) },
            ];
            let f = spec_fold(acts, st);
            &&& f.errs.len() == 0
            &&& f.entries == seq![
                ClockinV::In(
                    InDataV {
                        time: t,
                        date: DateV { year: y, month: m, day: d },
                        job: st.job,
                        tags: st.tags,
                        line: l2,
                    },
                ),
            ]
        }),
{
    let acts = seq![
        LineActionV { line: l1, col: c1, action: ActionV::SetDate(d, m, Some(y)) },
        LineActionV { line: l2, col: c2, action: ActionV::In(t) },
    ];
    reveal_with_fuel(spec_fold, 3);
    let st1 = spec_step(st, acts[0].action, l1).state;
    let tail = acts.subrange(1, 2);
    assert(tail.subrange(1, 1) =~= Seq::<LineActionV>::empty());
    let f = spec_fold(acts, st);
    assert(f.entries =~= seq![
        ClockinV::In(
            InDataV {
                time: t,
                date: DateV { year: y, month: m, day: d },
                job: st.job,
                tags: st.tags,
                line: l2,
            },
        ),
    ]);
}

/// One fold step never changes the tag list unless the action is a tag add or
/// clear.
pub proof fn lemma_step_keeps_tags(st: StateV, a: ActionV, line: int)
    requires
        !is_tag_action(a),
    ensures
        spec_step(st, a, line).state.tags == st.tags,
{
}

/// Law: after the tags are cleared, every entry emitted before the next tag
/// add or clear carries an empty tag list, and the list stays empty.
pub proof fn lemma_clear_tags_empties(st: StateV, mid: Seq<LineActionV>, l: int, c: int)
    requires
        forall|k: int| 0 <= k < mid.len() ==> !is_tag_action(#[trigger] mid[k].action),
    ensures
        ({
            let f = spec_fold(
                seq![LineActionV { line: l, col: c, action: ActionV::ClearTags(None) }] + mid,
                st,
            );
            &&& f.state.tags.len() == 0
            &&& forall|j: int|
                0 <= j < f.entries.len() ==> ((#[trigger] f.entries[j]) matches ClockinV::In(ind)
                    ==> ind.tags.len() == 0)
        }),
{
    let acts = seq![LineActionV { line: l, col: c, action: ActionV::ClearTags(None) }] + mid;
    let st1 = spec_step(st, acts[0].action, acts[0].line).state;
    assert(st1.tags.len() == 0);
    assert(acts.subrange(1, acts.len() as int) =~= mid);
    lemma_untagged_fold_keeps_tags(mid, st1);
    let f = spec_fold(acts, st);
    assert(f.entries =~= spec_fold(mid, st1).entries);
}

/// Folding any stretch with no tag add or clear leaves the tag list as it
/// was, and stamps it unchanged on every entry emitted meanwhile.
pub proof fn lemma_untagged_fold_keeps_tags(acts: Seq<LineActionV>, st: StateV)
    requires
        forall|k: int| 0 <= k < acts.len() ==> !is_tag_action(#[trigger] acts[k].action),
    ensures
        ({
            let f = spec_fold(acts, st);
            &&& f.state.tags == st.tags
            &&& forall|j: int|
                0 <= j < f.entries.len() ==> ((#[trigger] f.entries[j]) matches ClockinV::In(ind)
                    ==> ind.tags == st.tags)
        }),
    decreases acts.len(),
{
    if acts.len() > 0 {
        let first = spec_step(st, acts[0].action, acts[0].line);
        lemma_step_keeps_tags(st, acts[0].action, acts[0].line);
        let tail = acts.subrange(1, acts.len() as int);
        lemma_untagged_fold_keeps_tags(tail, first.state);
        let f = spec_fold(acts, st);
        let rest = spec_fold(tail, first.state);
        assert forall|j: int| 0 <= j < f.entries.len() implies ((#[trigger] f.entries[j]) matches
            ClockinV::In(ind) ==> ind.tags == st.tags) by {
            if j < first.entries.len() {
                assert(f.entries[j] == first.entries[j]);
            } else {
                assert(f.entries[j] == rest.entries[j - first.entries.len()]);
            }
        }
    }
}

/// Law: a date record without a year, met while no year is known, is recorded
/// as an error on its own line and changes nothing — no usable date is set.
pub proof fn lemma_dateless_year_errs(st: StateV, d: int, m: int, line: int)
    requires
        st.year is None,
    ensures
        spec_step(st, ActionV::SetDate(d, m, None), line) == (StepResult {
            state: st,
            entries: Seq::<ClockinV>::empty(),
            errs: seq![line],
        }),
{
}

/// Law: defining a group twice under one name keeps only the later member
/// list, whole — the two definitions are not merged.
pub proof fn lemma_defgroup_overwrites(
    st: StateV,
    k: Seq<char>,
    v1: Seq<Seq<char>>,
    v2: Seq<Seq<char>>,
    l1: int,
    c1: int,
    l2: int,
    c2: int,
)
    ensures
        ({
            let acts = seq![
                LineActionV { line: l1, col: c1, action: ActionV::DefGroup(k, v1) },
                LineActionV { line: l2, col: c2, action: ActionV::DefGroup(k, v2) },
            ];
            let f = spec_fold(acts, st);
            &&& f.state.groups == st.groups.insert(k, v2)
            &&& f.state.groups[k] == v2
        }),
{
    let acts = seq![
        LineActionV { line: l1, col: c1, action: ActionV::DefGroup(k, v1) },
        LineActionV { line: l2, col: c2, action: ActionV::DefGroup(k, v2) },
    ];
    reveal_with_fuel(spec_fold, 3);
    let tail = acts.subrange(1, 2);
    assert(tail.subrange(1, 1) =~= Seq::<LineActionV>::empty());
    let f = spec_fold(acts, st);
    assert(f.state.groups =~= st.groups.insert(k, v2));
}

/// The context the executable reducer's locals denote.
pub open spec fn cur_state(
    job: String,
    date: Date,
    tags: Vec<String>,
    year: Option<i64>,
    groups: Groups,
) -> StateV {
    StateV {
        job: job@,
        date: date@,
        tags: tags.deep_view(),
        year: match year {
            Some(y) => Some(y as int),
            None => None,
        },
        groups: groups@,
    }
}

/// The lines the collected errors point at.
pub open spec fn err_lines(es: Seq<LineErr>) -> Seq<int> {
    es.map_values(|e: LineErr| e.line as int)
}

/// A fold result with `entries` and `errs` already emitted before it.
pub open spec fn combine(entries: Seq<ClockinV>, errs: Seq<int>, rest: StepResult) -> StepResult {
    StepResult { state: rest.state, entries: entries + rest.entries, errs: errs + rest.errs }
}

/// Parses the whole log and folds its actions into entries and groups.
///
/// A grammar failure is reported alone with its position; otherwise every
/// per-record semantic failure (a date whose year was never set) is collected
/// into one aggregate, and only a log with none of them yields its entries.
pub fn read_string(s: &str) -> (r: Result<AllData, TokErr>)
    requires
        s@.len() < usize::MAX,
    ensures
        match spec_actions(s@, 0) {
            Err(p) => r matches Err(e) && (e matches TokErr::ParseErr(l, c) && l as int == line_at(
                s@,
                p,
            ) && c as int == crate::gob::col_at(s@, p)),
            Ok(acts) => ({
                let f = spec_fold(acts, init_state());
                if f.errs.len() == 0 {
                    r matches Ok(ad) && ad.clocks.deep_view() == f.entries && ad.groups@
                        == f.state.groups
                } else {
                    r matches Err(e) && (e matches TokErr::Lines(es) && es@.len() == f.errs.len()
                        && (forall|i: int|
                        0 <= i < f.errs.len() ==> (#[trigger] es@[i]).line as int == f.errs[i] && (
                        es@[i].err matches TokErr::NotSet(fld) && fld@ == "date"@)))
                }
            }),
        },
{
    let acts = match line_clock_actions(s) {
        Ok(a) => a,
        Err(e) => {
            return Err(e);
        },
    };
    let ghost all = acts.deep_view();
    let ghost target = spec_fold(all, init_state());
    let mut job: String = String::from_str("General");
    let mut date: Date = Date::new(1, 1, 1);
    let mut tags: Vec<String> = Vec::new();
    let mut year: Option<i64> = None;
    let mut groups: Groups = Groups::new();
    let mut clocks: Vec<Clockin> = Vec::new();
    let mut errs: Vec<LineErr> = Vec::new();
    let year_key: String = String::from_str("year");
    let mut k: usize = 0;
    proof {
        assert(all.skip(0) =~= all);
        assert(tags.deep_view() =~= Seq::<Seq<char>>::empty());
        assert(clocks.deep_view() =~= Seq::<ClockinV>::empty());
        assert(err_lines(errs@) =~= Seq::<int>::empty());
        assert(cur_state(job, date, tags, year, groups) == init_state());
        assert(combine(clocks.deep_view(), err_lines(errs@), spec_fold(all.skip(0), init_state()))
            == target) by {
            assert(Seq::<ClockinV>::empty() + target.entries =~= target.entries);
            assert(Seq::<int>::empty() + target.errs =~= target.errs);
        }
    }
    while k < acts.len()
        invariant
            k <= acts@.len(),
            all == acts.deep_view(),
            year_key@ == "year"@,
            target == spec_fold(all, init_state()),
            target == combine(
                clocks.deep_view(),
                err_lines(errs@),
                spec_fold(all.skip(k as int), cur_state(job, date, tags, year, groups)),
            ),
            forall|i: int|
                0 <= i < errs@.len() ==> ((#[trigger] errs@[i]).err matches TokErr::NotSet(fld)
                    && fld@ == "date"@),
        decreases acts@.len() - k,
    {
        let ghost st0 = cur_state(job, date, tags, year, groups);
        let ghost step = spec_step(st0, all[k as int].action, all[k as int].line);
        let ghost rest = spec_fold(all.skip(k as int + 1), step.state);
        let ghost pre_clocks = clocks.deep_view();
        let ghost pre_errl = err_lines(errs@);
        proof {
            assert(all.skip(k as int)[0] == all[k as int]);
            assert(all.skip(k as int).subrange(1, all.skip(k as int).len() as int) =~= all.skip(
                k as int + 1,
            ));
            assert(spec_fold(all.skip(k as int), st0) == combine(step.entries, step.errs, rest));
            assert(pre_clocks + (step.entries + rest.entries) =~= (pre_clocks + step.entries)
                + rest.entries);
            assert(pre_errl + (step.errs + rest.errs) =~= (pre_errl + step.errs) + rest.errs);
            assert(target == combine(pre_clocks + step.entries, pre_errl + step.errs, rest));
        }
        let line = acts[k].line;
        match &acts[k].action {
            ClockAction::SetJob(j) => {
                job = j.clone();
            },
            ClockAction::SetDate(d, m, yo) => {
                match *yo {
                    Some(y) => {
                        date = Date::new(y, *m, *d);
                    },
                    None => {
                        match year {
                            Some(y) => {
                                date = Date::new(y, *m, *d);
                            },
                            None => {
                                errs.push(
                                    LineErr {
                                        line,
                                        err: TokErr::NotSet(String::from_str("date")),
                                    },
                                );
                                proof {
                                    assert(err_lines(errs@) =~= pre_errl + step.errs);
                                }
                            },
                        }
                    },
                }
            },
            ClockAction::AddTag(t) => {
                tags.push(t.clone());
                proof {
                    assert(tags.deep_view() =~= st0.tags.push(t@));
                }
            },
            ClockAction::ClearTags(ro) => {
                match ro {
                    Some(t) => {
                        let mut fresh: Vec<String> = Vec::new();
                        fresh.push(t.clone());
                        tags = fresh;
                        proof {
                            assert(tags.deep_view() =~= seq![t@]);
                        }
                    },
                    None => {
                        tags = Vec::new();
                        proof {
                            assert(tags.deep_view() =~= Seq::<Seq<char>>::empty());
                        }
                    },
                }
            },
            ClockAction::SetNum(key, v) => {
                if key.eq(&year_key) {
                    year = Some(*v);
                }
            },
            ClockAction::DefGroup(key, v) => {
                groups.set(key.clone(), clone_string_vec(v));
            },
            ClockAction::In(t) => {
                clocks.push(
                    Clockin::In(
                        InData {
                            time: *t,
                            date,
                            job: job.clone(),
                            tags: clone_string_vec(&tags),
                            line,
                        },
                    ),
                );
                proof {
                    assert(clocks.deep_view() =~= pre_clocks + step.entries);
                }
            },
            ClockAction::Out(t) => {
                clocks.push(Clockin::Out(*t));
                proof {
                    assert(clocks.deep_view() =~= pre_clocks + step.entries);
                }
            },
            ClockAction::InOut(t1, t2) => {
                clocks.push(
                    Clockin::In(
                        InData {
                            time: *t1,
                            date,
                            job: job.clone(),
                            tags: clone_string_vec(&tags),
                            line,
                        },
                    ),
                );
                clocks.push(Clockin::Out(*t2));
                proof {
                    assert(clocks.deep_view() =~= pre_clocks + step.entries);
                }
            },
        }
        proof {
            assert(cur_state(job, date, tags, year, groups) == step.state);
            assert(clocks.deep_view() =~= pre_clocks + step.entries);
            assert(err_lines(errs@) =~= pre_errl + step.errs);
        }
        k += 1;
    }
    proof {
        assert(all.skip(acts@.len() as int) =~= Seq::<LineActionV>::empty());
        let fin = cur_state(job, date, tags, year, groups);
        assert(spec_fold(Seq::<LineActionV>::empty(), fin) == StepResult {
            state: fin,
            entries: Seq::<ClockinV>::empty(),
            errs: Seq::<int>::empty(),
        });
        assert(clocks.deep_view() + Seq::<ClockinV>::empty() =~= clocks.deep_view());
        assert(err_lines(errs@) + Seq::<int>::empty() =~= err_lines(errs@));
        assert(target.entries == clocks.deep_view());
        assert(target.errs == err_lines(errs@));
        assert(target.state == fin);
    }
    if errs.len() > 0 {
        Err(TokErr::Lines(errs))
    } else {
        Ok(AllData { clocks, groups })
    }
}

} // verus!
