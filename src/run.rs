//! Run options, and the ordered steps that carry out a checked plan.
use vstd::prelude::*;
use crate::error::RenameError;
use crate::plan::{has_collision, validate_plan, Change};

verus! {

/// How a checked plan is carried out.
#[derive(Debug, Clone, Copy)]
pub struct RunOptions {
    /// Move (rename) the files instead of copying them.
    pub moving: bool,
    /// Report the plan without touching any file.
    pub dry_run: bool,
    /// Print nothing.
    pub silent: bool,
}

/// One step of a run.
#[derive(Debug)]
pub enum Step {
    /// Print one line.
    Print(String),
    /// Rename `from` to `to`.
    Rename { from: String, to: String },
    /// Copy the bytes of `from` to `to`.
    Copy { from: String, to: String },
}

/// What a step does, seen as text.
pub enum Action {
    Say(Seq<char>),
    Rename(Seq<char>, Seq<char>),
    Copy(Seq<char>, Seq<char>),
}

pub open spec fn step_view(s: Step) -> Action {
    match s {
        Step::Print(t) => Action::Say(t@),
        Step::Rename { from, to } => Action::Rename(from@, to@),
        Step::Copy { from, to } => Action::Copy(from@, to@),
    }
}

pub open spec fn steps_view(v: Seq<Step>) -> Seq<Action>
    decreases v.len(),
{
    if v.len() == 0 {
        seq![]
    } else {
        steps_view(v.drop_last()).push(step_view(v.last()))
    }
}

/// Whether `name` holds `mv`.
pub open spec fn names_move(name: Seq<char>) -> bool {
    exists|k: int| 0 <= k && k + 1 < name.len() && #[trigger] name[k] == 'm' && name[k + 1] == 'v'
}

/// The line that reports one change.
pub open spec fn report_line(c: Change) -> Seq<char> {
    c.source@ + " -> "@ + c.destination@
}

pub open spec fn header(o: RunOptions) -> Seq<Action> {
    if o.silent {
        seq![]
    } else if o.moving {
        seq![Action::Say("Moving:"@)]
    } else {
        seq![Action::Say("Copying:"@)]
    }
}

/// The steps for one change: its report line unless silent, then its rename
/// or copy unless a dry run.
pub open spec fn change_actions(c: Change, o: RunOptions) -> Seq<Action> {
    (if o.silent {
        seq![]
    } else {
        seq![Action::Say(report_line(c))]
    }) + (if o.dry_run {
        seq![]
    } else if o.moving {
        seq![Action::Rename(c.source@, c.destination@)]
    } else {
        seq![Action::Copy(c.source@, c.destination@)]
    })
}

pub open spec fn body(cs: Seq<Change>, o: RunOptions) -> Seq<Action>
    decreases cs.len(),
{
    if cs.len() == 0 {
        seq![]
    } else {
        body(cs.drop_last(), o) + change_actions(cs.last(), o)
    }
}

/// All steps of a run, in order: the header, then each change in plan order.
pub open spec fn script(cs: Seq<Change>, o: RunOptions) -> Seq<Action> {
    header(o) + body(cs, o)
}

/// The lines that a list of steps prints, in order.
pub open spec fn printed(a: Seq<Action>) -> Seq<Seq<char>>
    decreases a.len(),
{
    if a.len() == 0 {
        seq![]
    } else {
        match a.last() {
            Action::Say(t) => printed(a.drop_last()).push(t),
            _ => printed(a.drop_last()),
        }
    }
}

/// Whether a list of steps touches any file.
pub open spec fn mutates(a: Seq<Action>) -> bool {
    exists|i: int| 0 <= i < a.len() && !(#[trigger] a[i] is Say)
}

impl RunOptions {
    /// Checks the flags: `--dry-run` with `--silent` is a `UsageConflict`.
    /// Moving is chosen by `mv`, or by an invocation name that holds `mv`.
    pub fn new(mv: bool, dry_run: bool, silent: bool, invocation_name: &str) -> (r: Result<
        RunOptions,
        RenameError,
    >)
        ensures
            dry_run && silent ==> r matches Err(RenameError::UsageConflict),
            !(dry_run && silent) ==> (r matches Ok(o) && o.moving == (mv || names_move(
                invocation_name@,
            )) && o.dry_run == dry_run && o.silent == silent),
    {
        if dry_run && silent {
            return Err(RenameError::UsageConflict);
        }
        let moving = mv || invokes_move(invocation_name);
        Ok(RunOptions { moving, dry_run, silent })
    }
}

/// Whether the program's own name asks for moving: it holds `mv`.
pub fn invokes_move(name: &str) -> (r: bool)
    ensures
        r == names_move(name@),
{
    let n = name.unicode_len();
    let mut k: usize = 0;
    while k < n
        invariant
            n == name@.len(),
            k <= n,
            forall|a: int| 0 <= a < k && a + 1 < n ==> !(#[trigger] name@[a] == 'm' && name@[a + 1] == 'v'),
        decreases n - k,
    {
        if k + 1 < n && name.get_char(k) == 'm' && name.get_char(k + 1) == 'v' {
            return true;
        }
        k = k + 1;
    }
    false
}

proof fn lemma_printed_concat(a: Seq<Action>, b: Seq<Action>)
    ensures
        printed(a + b) == printed(a) + printed(b),
    decreases b.len(),
{
    if b.len() == 0 {
        assert(a + b =~= a);
        assert(printed(a) + printed(b) =~= printed(a));
    } else {
        assert((a + b).drop_last() =~= a + b.drop_last());
        lemma_printed_concat(a, b.drop_last());
        match b.last() {
            Action::Say(t) => {
                assert(printed(a) + printed(b.drop_last()).push(t) =~= (printed(a) + printed(
                    b.drop_last(),
                )).push(t));
            },
            _ => {},
        }
    }
}

proof fn lemma_dry_body(cs: Seq<Change>, o: RunOptions)
    requires
        o.dry_run,
    ensures
        forall|i: int| 0 <= i < body(cs, o).len() ==> #[trigger] body(cs, o)[i] is Say,
        printed(body(cs, o)) == printed(
            body(cs, (RunOptions { moving: o.moving, dry_run: false, silent: o.silent })),
        ),
    decreases cs.len(),
{
    let wet = RunOptions { moving: o.moving, dry_run: false, silent: o.silent };
    if cs.len() > 0 {
        let c = cs.last();
        lemma_dry_body(cs.drop_last(), o);
        lemma_printed_concat(body(cs.drop_last(), o), change_actions(c, o));
        lemma_printed_concat(body(cs.drop_last(), wet), change_actions(c, wet));
        reveal_with_fuel(printed, 3);
        if o.silent {
            assert(change_actions(c, o) =~= Seq::<Action>::empty());
        } else {
            assert(change_actions(c, o) =~= seq![Action::Say(report_line(c))]);
        }
        let w = change_actions(c, wet);
        assert(w.drop_last().drop_last() =~= Seq::<Action>::empty() || w.drop_last()
            =~= Seq::<Action>::empty());
        assert(printed(change_actions(c, o)) =~= printed(w));
    }
}

/// A dry run touches no file, and prints exactly the lines that the same run
/// without the dry-run flag prints: the report is the plan that would be
/// carried out.
pub proof fn lemma_dry_run_reports_plan(cs: Seq<Change>, o: RunOptions)
    requires
        o.dry_run,
    ensures
        !mutates(script(cs, o)),
        printed(script(cs, o)) == printed(
            script(cs, (RunOptions { moving: o.moving, dry_run: false, silent: o.silent })),
        ),
{
    let wet = RunOptions { moving: o.moving, dry_run: false, silent: o.silent };
    lemma_dry_body(cs, o);
    lemma_printed_concat(header(o), body(cs, o));
    lemma_printed_concat(header(wet), body(cs, wet));
    assert(header(o) == header(wet));
    assert forall|i: int| 0 <= i < script(cs, o).len() implies #[trigger] script(cs, o)[i] is Say by {
        if i >= header(o).len() {
            assert(script(cs, o)[i] == body(cs, o)[i - header(o).len()]);
        }
    }
}

proof fn lemma_steps_view_push(v: Seq<Step>, s: Step)
    ensures
        steps_view(v.push(s)) == steps_view(v).push(step_view(s)),
{
    assert(v.push(s).drop_last() =~= v);
}

fn push_step(out: &mut Vec<Step>, s: Step)
    ensures
        steps_view(final(out)@) == steps_view(old(out)@).push(step_view(s)),
{
    proof {
        lemma_steps_view_push(out@, s);
    }
    out.push(s);
}

/// The steps that carry out `changes` under `opts`, in plan order: a header and
/// one line per change unless silent, and each rename or copy unless a dry run.
pub fn plan_steps(changes: &Vec<Change>, opts: &RunOptions) -> (r: Vec<Step>)
    ensures
        steps_view(r@) == script(changes@, *opts),
{
    let mut out: Vec<Step> = Vec::new();
    if !opts.silent {
        let h = if opts.moving {
            String::from_str("Moving:")
        } else {
            String::from_str("Copying:")
        };
        push_step(&mut out, Step::Print(h));
    }
    proof {
        assert(steps_view(out@) =~= header(*opts));
        assert(changes@.take(0) =~= Seq::<Change>::empty());
        assert(header(*opts) + Seq::<Action>::empty() =~= header(*opts));
    }
    let mut j: usize = 0;
    while j < changes.len()
        invariant
            j <= changes@.len(),
            steps_view(out@) == header(*opts) + body(changes@.take(j as int), *opts),
        decreases changes@.len() - j,
    {
        let c = &changes[j];
        let ghost before = steps_view(out@);
        proof {
            assert(changes@.take(j + 1).drop_last() =~= changes@.take(j as int));
            assert(changes@.take(j + 1).last() == changes@[j as int]);
        }
        if !opts.silent {
            let mut line = c.source.clone();
            line.append(" -> ");
            line.append(c.destination.as_str());
            push_step(&mut out, Step::Print(line));
        }
        if !opts.dry_run {
            if opts.moving {
                push_step(&mut out, Step::Rename { from: c.source.clone(), to: c.destination.clone() });
            } else {
                push_step(&mut out, Step::Copy { from: c.source.clone(), to: c.destination.clone() });
            }
        }
        proof {
            assert(steps_view(out@) =~= before + change_actions(*c, *opts));
            assert(header(*opts) + body(changes@.take(j as int), *opts) + change_actions(*c, *opts)
                =~= header(*opts) + body(changes@.take(j + 1), *opts));
        }
        j = j + 1;
    }
    proof {
        assert(changes@.take(j as int) =~= changes@);
    }
    out
}

/// Checks the plan, then gives the steps that carry it out. On an empty plan
/// or a shared destination no step at all is given, so nothing is touched.
pub fn prepare_run(changes: &Vec<Change>, opts: &RunOptions) -> (r: Result<Vec<Step>, RenameError>)
    ensures
        r is Ok <==> changes@.len() > 0 && !has_collision(changes@),
        r matches Ok(steps) ==> steps_view(steps@) == script(changes@, *opts),
        changes@.len() == 0 ==> r matches Err(RenameError::NothingToDo),
        changes@.len() > 0 && has_collision(changes@) ==> (r matches Err(
            RenameError::DestinationCollision { destination, first, second },
        ) && first < second < changes@.len() && changes@[first as int].destination@
            == changes@[second as int].destination@ && destination@
            == changes@[first as int].destination@),
{
    match validate_plan(changes) {
        Ok(()) => Ok(plan_steps(changes, opts)),
        Err(e) => Err(e),
    }
}

} // verus!
