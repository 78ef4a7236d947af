//! Generic command pattern for reversible editor operations.
//!
//! [`Command`] is implemented by consumers for their own edit types.
//! [`CompoundCommand`] groups several commands into one undo unit and
//! [`CommandHistory`] keeps the undo/redo stacks.
//!
//! What a command does to its target is the consumer's business, so the
//! contracts here speak of what the library controls: which commands sit on
//! which stack, in which order, and what happens to the stacks when a
//! command reports an error.

use std::collections::VecDeque;
use vstd::prelude::*;

verus! {

/// A reversible editor command.
///
/// Consumers define domain-specific commands and implement this trait.
/// `apply` may mutate `self` to capture undo state for `reverse`.
pub trait Command: Sized {
    /// The state this command operates on (e.g. a session, timeline, canvas).
    type Target;
    /// Error type. Use `std::convert::Infallible` for infallible commands.
    type Error;

    /// What `apply` does: applied to the target `target`, the command
    /// `before` becomes `after`, the target becomes `new_target`, and the
    /// result is `r`. A verified implementation says what this is for its
    /// type; one that does not override it promises nothing.
    closed spec fn applied(
        before: Self,
        target: Self::Target,
        after: Self,
        new_target: Self::Target,
        r: Result<(), Self::Error>,
    ) -> bool {
        true
    }

    /// What `reverse` does, in the same terms as [`Command::applied`].
    closed spec fn reversed(
        before: Self,
        target: Self::Target,
        after: Self,
        new_target: Self::Target,
        r: Result<(), Self::Error>,
    ) -> bool {
        true
    }

    /// Apply the command to the target.
    fn apply(&mut self, target: &mut Self::Target) -> (r: Result<(), Self::Error>)
        ensures
            Self::applied(*old(self), *old(target), *final(self), *final(target), r),
    ;

    /// Reverse the command, restoring the target to its prior state.
    fn reverse(&mut self, target: &mut Self::Target) -> (r: Result<(), Self::Error>)
        ensures
            Self::reversed(*old(self), *old(target), *final(self), *final(target), r),
    ;

    /// Human-readable description for undo/redo menu display.
    fn description(&self) -> &str;
}

// ---------------------------------------------------------------------------
// CompoundCommand
// ---------------------------------------------------------------------------

/// A group of commands executed as a single undo/redo unit.
///
/// Commands are applied in order and reversed in reverse order. If a
/// sub-command fails during apply, the sub-commands applied before it are
/// reversed (best effort) and the error is returned.
#[derive(Debug)]
pub struct CompoundCommand<C> {
    commands: Vec<C>,
    description: String,
}

impl<C> CompoundCommand<C> {
    /// The sub-commands, in application order.
    pub closed spec fn spec_commands(&self) -> Seq<C> {
        self.commands@
    }

    /// The description shown for this group.
    pub closed spec fn spec_description(&self) -> Seq<char> {
        self.description@
    }

    /// Create a compound command with a static description.
    pub fn new(description: &'static str, commands: Vec<C>) -> (c: Self)
        ensures
            c.spec_commands() == commands@,
            c.spec_description() == description@,
    {
        CompoundCommand { commands, description: description.to_owned() }
    }

    /// Create a compound command with a dynamic description.
    pub fn with_description(description: String, commands: Vec<C>) -> (c: Self)
        ensures
            c.spec_commands() == commands@,
            c.spec_description() == description@,
    {
        CompoundCommand { commands, description }
    }

    /// Number of sub-commands.
    pub fn len(&self) -> (n: usize)
        ensures
            n == self.spec_commands().len(),
    {
        self.commands.len()
    }

    /// Whether this compound command has no sub-commands.
    pub fn is_empty(&self) -> (b: bool)
        ensures
            b == (self.spec_commands().len() == 0),
    {
        self.commands.len() == 0
    }

    /// Access the sub-commands.
    pub fn commands(&self) -> (s: &[C])
        ensures
            s@ == self.spec_commands(),
    {
        self.commands.as_slice()
    }
}

/// The first `k` sub-commands of `cs` applied in order, each successfully:
/// the `i`-th turns the target `ts[i]` into `ts[i + 1]` and becomes `ms[i]`.
pub open spec fn applied_in_order<C: Command>(cs: Seq<C>, ms: Seq<C>, ts: Seq<C::Target>, k: int) -> bool {
    &&& 0 <= k <= cs.len()
    &&& ms.len() == k
    &&& ts.len() == k + 1
    &&& forall|i: int| #![trigger ms[i]] 0 <= i < k ==> C::applied(cs[i], ts[i], ms[i], ts[i + 1], Ok(()))
}

/// The applied commands `ms[..k]` reversed last first, whatever each
/// reversal gave: the `j`-th turns the target `us[j + 1]` into `us[j]`,
/// becomes `ds[j]`, and gives `rs[j]`.
pub open spec fn rolled_back<C: Command>(
    ms: Seq<C>,
    ds: Seq<C>,
    us: Seq<C::Target>,
    rs: Seq<Result<(), C::Error>>,
    k: int,
) -> bool {
    &&& us.len() == k + 1
    &&& rs.len() == k
    &&& forall|j: int| #![trigger rs[j]] 0 <= j < k ==> C::reversed(ms[j], us[j + 1], ds[j], us[j], rs[j])
}

/// A run of `apply` over the sub-commands `cs` (becoming `ds`, taking the
/// target from `t0` to `t1`) whose `k`-th sub-command failed with `e`: the
/// ones before it applied in order, the `k`-th failed, the ones before it
/// were then reversed last first, and the ones after it were not touched.
pub open spec fn apply_failed_at<C: Command>(
    cs: Seq<C>,
    ds: Seq<C>,
    t0: C::Target,
    t1: C::Target,
    e: C::Error,
    k: int,
    ts: Seq<C::Target>,
    ms: Seq<C>,
    us: Seq<C::Target>,
    rs: Seq<Result<(), C::Error>>,
) -> bool {
    &&& 0 <= k < cs.len()
    &&& ds.len() == cs.len()
    &&& applied_in_order(cs, ms, ts, k)
    &&& ts[0] == t0
    &&& C::applied(cs[k], ts[k], ds[k], us[k], Err(e))
    &&& rolled_back(ms, ds, us, rs, k)
    &&& us[0] == t1
    &&& forall|i: int| k < i < cs.len() ==> #[trigger] ds[i] == cs[i]
}

/// What `apply` of a group does to its sub-commands `cs` (becoming `ds`)
/// and the target (from `t0` to `t1`): on `Ok`, every sub-command applied
/// in order, each successfully; on `Err(e)`, a run that failed with `e`.
pub open spec fn group_applied<C: Command>(
    cs: Seq<C>,
    t0: C::Target,
    ds: Seq<C>,
    t1: C::Target,
    r: Result<(), C::Error>,
) -> bool {
    match r {
        Ok(_) => exists|ts: Seq<C::Target>|
            #[trigger] applied_in_order(cs, ds, ts, cs.len() as int) && ts[0] == t0 && ts[cs.len() as int] == t1,
        Err(e) => exists|k: int, ts: Seq<C::Target>, ms: Seq<C>, us: Seq<C::Target>, rs: Seq<Result<(), C::Error>>|
            #[trigger] apply_failed_at(cs, ds, t0, t1, e, k, ts, ms, us, rs),
    }
}

/// The sub-commands `cs[j..]` reversed last first, each successfully: the
/// `i`-th turns the target `us[i + 1]` into `us[i]` and becomes `ds[i]`.
pub open spec fn reversed_down_to<C: Command>(cs: Seq<C>, ds: Seq<C>, us: Seq<C::Target>, j: int) -> bool {
    &&& ds.len() == cs.len()
    &&& us.len() == cs.len() + 1
    &&& forall|i: int| #![trigger ds[i]] j <= i < cs.len() ==> C::reversed(cs[i], us[i + 1], ds[i], us[i], Ok(()))
}

/// A run of `reverse` over the sub-commands `cs` (becoming `ds`, taking the
/// target from `t0` to `t1`) that stopped at the `k`-th, which failed with
/// `e`: the ones after it were reversed last first, the ones before it not
/// touched.
pub open spec fn reverse_failed_at<C: Command>(
    cs: Seq<C>,
    ds: Seq<C>,
    t0: C::Target,
    t1: C::Target,
    e: C::Error,
    k: int,
    us: Seq<C::Target>,
) -> bool {
    &&& 0 <= k < cs.len()
    &&& reversed_down_to(cs, ds, us, k + 1)
    &&& us[cs.len() as int] == t0
    &&& C::reversed(cs[k], us[k + 1], ds[k], us[k], Err(e))
    &&& us[k] == t1
    &&& forall|i: int| 0 <= i < k ==> #[trigger] ds[i] == cs[i]
}

/// What `reverse` of a group does: on `Ok`, every sub-command reversed
/// last first, each successfully; on `Err(e)`, a run that stopped at the
/// first failure, `e`.
pub open spec fn group_reversed<C: Command>(
    cs: Seq<C>,
    t0: C::Target,
    ds: Seq<C>,
    t1: C::Target,
    r: Result<(), C::Error>,
) -> bool {
    match r {
        Ok(_) => exists|us: Seq<C::Target>|
            #[trigger] reversed_down_to(cs, ds, us, 0) && us[cs.len() as int] == t0 && us[0] == t1,
        Err(e) => exists|k: int, us: Seq<C::Target>| #[trigger] reverse_failed_at(cs, ds, t0, t1, e, k, us),
    }
}

impl<C: Command> Command for CompoundCommand<C> {
    type Target = C::Target;
    type Error = C::Error;

    /// The description stays, and the sub-commands are applied as
    /// [`group_applied`] says.
    open spec fn applied(before: Self, target: C::Target, after: Self, new_target: C::Target, r: Result<(), C::Error>) -> bool {
        &&& after.spec_description() == before.spec_description()
        &&& group_applied(before.spec_commands(), target, after.spec_commands(), new_target, r)
    }

    /// The description stays, and the sub-commands are reversed as
    /// [`group_reversed`] says.
    open spec fn reversed(before: Self, target: C::Target, after: Self, new_target: C::Target, r: Result<(), C::Error>) -> bool {
        &&& after.spec_description() == before.spec_description()
        &&& group_reversed(before.spec_commands(), target, after.spec_commands(), new_target, r)
    }

    /// Apply every sub-command in order; on the first failure, reverse the
    /// sub-commands already applied (last first) and return that failure.
    fn apply(&mut self, target: &mut C::Target) -> (r: Result<(), C::Error>)
        ensures
            final(self).spec_commands().len() == old(self).spec_commands().len(),
            final(self).spec_description() == old(self).spec_description(),
            old(self).spec_commands().len() == 0 ==> r is Ok && *final(self) == *old(self),
    {
        let ghost cs = self.commands@;
        let ghost t0 = *target;
        let ghost mut ts: Seq<C::Target> = seq![t0];
        let n = self.commands.len();
        let mut i: usize = 0;
        while i < n
            invariant
                i <= n,
                n == self.commands@.len(),
                cs == old(self).commands@,
                t0 == *old(target),
                self.description == old(self).description,
                n == old(self).commands@.len(),
                n == 0 ==> *self == *old(self),
                applied_in_order(cs, self.commands@.take(i as int), ts, i as int),
                ts[0] == t0,
                ts[i as int] == *target,
                forall|m: int| i <= m < n ==> #[trigger] self.commands@[m] == cs[m],
            decreases n - i,
        {
            let ghost before = self.commands@;
            let ghost t_before = *target;
            let res = self.commands[i].apply(target);
            match res {
                Err(e) => {
                    let ghost k = i as int;
                    let ghost ms = before.take(k);
                    let ghost dk = self.commands@[k];
                    let ghost tk = *target;
                    let ghost mut us: Seq<C::Target> = Seq::new((k + 1) as nat, |x: int| tk);
                    let ghost mut rs: Seq<Result<(), C::Error>> = Seq::new(
                        k as nat,
                        |x: int| arbitrary::<Result<(), C::Error>>(),
                    );
                    assert(C::applied(cs[k], ts[k], dk, us[k], Err(e)));
                    let mut j: usize = i;
                    while j > 0
                        invariant
                            j <= i < n,
                            k == i,
                            n == self.commands@.len(),
                            n == cs.len(),
                            self.description == old(self).description,
                            cs == old(self).commands@,
                            t0 == *old(target),
                            applied_in_order(cs, ms, ts, k),
                            ts[0] == t0,
                            C::applied(cs[k], ts[k], dk, us[k], Err(e)),
                            us.len() == k + 1,
                            rs.len() == k,
                            us[j as int] == *target,
                            self.commands@[k] == dk,
                            forall|m: int| 0 <= m < j ==> #[trigger] self.commands@[m] == ms[m],
                            forall|m: int|
                                #![trigger rs[m]]
                                j <= m < k ==> C::reversed(ms[m], us[m + 1], self.commands@[m], us[m], rs[m]),
                            forall|m: int| k < m < n ==> #[trigger] self.commands@[m] == cs[m],
                        decreases j,
                    {
                        j = j - 1;
                        let ghost before_r = self.commands@;
                        let rr = self.commands[j].reverse(target);
                        proof {
                            us = us.update(j as int, *target);
                            rs = rs.update(j as int, rr);
                            assert forall|m: int|
                                #![trigger rs[m]]
                                j <= m < k implies C::reversed(ms[m], us[m + 1], self.commands@[m], us[m], rs[m]) by {
                                if m > j {
                                    assert(self.commands@[m] == before_r[m]);
                                }
                            }
                            assert forall|m: int| 0 <= m < j implies #[trigger] self.commands@[m] == ms[m] by {
                                assert(self.commands@[m] == before_r[m]);
                            }
                            assert forall|m: int| k < m < n implies #[trigger] self.commands@[m] == cs[m] by {
                                assert(self.commands@[m] == before_r[m]);
                            }
                            assert(self.commands@[k] == before_r[k]);
                        }
                    }
                    proof {
                        let ds = self.commands@;
                        assert(rolled_back(ms, ds, us, rs, k));
                        assert(apply_failed_at(cs, ds, t0, *target, e, k, ts, ms, us, rs));
                    }
                    return Err(e);
                },
                Ok(u) => {
                    assert(u == ());
                    assert(res == Ok::<(), C::Error>(()));
                },
            }
            proof {
                let ms0 = before.take(i as int);
                let ts1 = ts.push(*target);
                let ms1 = self.commands@.take(i + 1);
                assert forall|m: int| #![trigger ms1[m]] 0 <= m < i + 1 implies C::applied(cs[m], ts1[m], ms1[m], ts1[m + 1], Ok(())) by {
                    if m < i {
                        assert(ms1[m] == ms0[m]);
                        assert(ts1[m] == ts[m]);
                        assert(ts1[m + 1] == ts[m + 1]);
                    } else {
                        assert(ms1[m] == self.commands@[m]);
                        assert(ts1[m] == t_before);
                    }
                }
                ts = ts1;
            }
            i = i + 1;
        }
        assert(self.commands@.take(n as int) =~= self.commands@);
        Ok(())
    }

    /// Reverse every sub-command, last first; stop at the first failure.
    fn reverse(&mut self, target: &mut C::Target) -> (r: Result<(), C::Error>)
        ensures
            final(self).spec_commands().len() == old(self).spec_commands().len(),
            final(self).spec_description() == old(self).spec_description(),
            old(self).spec_commands().len() == 0 ==> r is Ok && *final(self) == *old(self),
    {
        let ghost cs = self.commands@;
        let ghost t0 = *target;
        let n = self.commands.len();
        let ghost mut us: Seq<C::Target> = Seq::new((n + 1) as nat, |x: int| t0);
        let mut j: usize = n;
        while j > 0
            invariant
                j <= n,
                n == self.commands@.len(),
                cs == old(self).commands@,
                t0 == *old(target),
                self.description == old(self).description,
                n == old(self).commands@.len(),
                n == 0 ==> *self == *old(self),
                us.len() == n + 1,
                us[n as int] == t0,
                us[j as int] == *target,
                forall|m: int| 0 <= m < j ==> #[trigger] self.commands@[m] == cs[m],
                forall|m: int|
                    #![trigger self.commands@[m]]
                    j <= m < n ==> C::reversed(cs[m], us[m + 1], self.commands@[m], us[m], Ok(())),
            decreases j,
        {
            j = j - 1;
            let ghost before = self.commands@;
            let ghost us0 = us;
            let res = self.commands[j].reverse(target);
            proof {
                us = us.update(j as int, *target);
                assert(before[j as int] == cs[j as int]);
                assert(us[j as int + 1] == us0[j as int + 1]);
                assert forall|m: int| 0 <= m < j implies #[trigger] self.commands@[m] == cs[m] by {
                    assert(self.commands@[m] == before[m]);
                }
            }
            match res {
                Err(e) => {
                    proof {
                        let ds = self.commands@;
                        assert forall|m: int| #![trigger ds[m]] j + 1 <= m < n implies C::reversed(
                            cs[m],
                            us[m + 1],
                            ds[m],
                            us[m],
                            Ok(()),
                        ) by {
                            assert(ds[m] == before[m]);
                            assert(us[m] == us0[m]);
                            assert(us[m + 1] == us0[m + 1]);
                        }
                        assert(reversed_down_to(cs, ds, us, j + 1));
                        assert(reverse_failed_at(cs, ds, t0, *target, e, j as int, us));
                    }
                    return Err(e);
                },
                Ok(u) => {
                    assert(u == ());
                    assert(res == Ok::<(), C::Error>(()));
                },
            }
            proof {
                assert forall|m: int|
                    #![trigger self.commands@[m]]
                    j <= m < n implies C::reversed(cs[m], us[m + 1], self.commands@[m], us[m], Ok(())) by {
                    if m > j {
                        assert(self.commands@[m] == before[m]);
                        assert(us[m] == us0[m]);
                        assert(us[m + 1] == us0[m + 1]);
                    }
                }
            }
        }
        proof {
            assert(reversed_down_to(cs, self.commands@, us, 0));
        }
        Ok(())
    }

    fn description(&self) -> (d: &str)
        ensures
            d@ == self.spec_description(),
    {
        self.description.as_str()
    }
}


/// For `C`, `reverse` undoes `apply`: a command that applied successfully,
/// taking the target from `t0` to `t1`, and is then reversed successfully,
/// brings the target back to `t0`.
pub open spec fn reverse_undoes_apply<C: Command>() -> bool {
    forall|c0: C, t0: C::Target, c1: C, t1: C::Target, c2: C, t2: C::Target|
        #[trigger] C::applied(c0, t0, c1, t1, Ok(())) && #[trigger] C::reversed(c1, t1, c2, t2, Ok(()))
            ==> t2 == t0
}

/// Along a successful apply run (targets `ts`) and a successful reverse
/// run of the same commands (targets `us`) that starts where the apply run
/// ended, the two runs meet at every step.
proof fn lemma_runs_meet<C: Command>(
    cs: Seq<C>,
    ds: Seq<C>,
    es: Seq<C>,
    ts: Seq<C::Target>,
    us: Seq<C::Target>,
    i: int,
)
    requires
        reverse_undoes_apply::<C>(),
        applied_in_order(cs, ds, ts, cs.len() as int),
        reversed_down_to(ds, es, us, 0),
        us[cs.len() as int] == ts[cs.len() as int],
        0 <= i <= cs.len(),
    ensures
        us[i] == ts[i],
    decreases cs.len() - i,
{
    if i < cs.len() {
        lemma_runs_meet(cs, ds, es, ts, us, i + 1);
        assert(C::applied(cs[i], ts[i], ds[i], ts[i + 1], Ok(())));
        assert(C::reversed(ds[i], us[i + 1], es[i], us[i], Ok(())));
    }
}

/// A group reversed after it applied restores the target, when each
/// sub-command's `reverse` undoes its `apply`: `reverse` undoes `apply` for
/// compound commands too.
pub proof fn lemma_group_reverse_undoes_apply<C: Command>()
    requires
        reverse_undoes_apply::<C>(),
    ensures
        reverse_undoes_apply::<CompoundCommand<C>>(),
{
    assert forall|g0: CompoundCommand<C>, t0: C::Target, g1: CompoundCommand<C>, t1: C::Target, g2: CompoundCommand<C>, t2: C::Target|
        #[trigger] CompoundCommand::<C>::applied(g0, t0, g1, t1, Ok(())) && #[trigger] CompoundCommand::<C>::reversed(
            g1,
            t1,
            g2,
            t2,
            Ok(()),
        ) implies t2 == t0 by {
        let cs = g0.spec_commands();
        let ds = g1.spec_commands();
        let es = g2.spec_commands();
        let ts = choose|ts: Seq<C::Target>|
            #[trigger] applied_in_order(cs, ds, ts, cs.len() as int) && ts[0] == t0 && ts[cs.len() as int] == t1;
        let us = choose|us: Seq<C::Target>|
            #[trigger] reversed_down_to(ds, es, us, 0) && us[ds.len() as int] == t1 && us[0] == t2;
        lemma_runs_meet(cs, ds, es, ts, us, 0);
    }
}

// ---------------------------------------------------------------------------
// CommandHistory
// ---------------------------------------------------------------------------

/// Default maximum undo depth.
pub const DEFAULT_MAX_DEPTH: usize = 256;

/// The undo stack after making room for one more command: the oldest
/// command leaves when the stack is at (or over) `max_depth`.
pub open spec fn make_room<C>(undo: Seq<C>, max_depth: usize) -> Seq<C> {
    if undo.len() >= max_depth && undo.len() > 0 {
        undo.drop_first()
    } else {
        undo
    }
}

/// Undo/redo stacks for commands.
///
/// The undo stack is a `VecDeque` (O(1) eviction of the oldest command at
/// `max_depth`); the redo stack is a `Vec`.
#[derive(Debug)]
pub struct CommandHistory<C> {
    undo_stack: VecDeque<C>,
    redo_stack: Vec<C>,
    max_depth: usize,
}

impl<C> CommandHistory<C> {
    /// The undo stack, oldest first.
    pub closed spec fn undo_seq(&self) -> Seq<C> {
        self.undo_stack@
    }

    /// The redo stack, bottom first (the next command to redo is last).
    pub closed spec fn redo_seq(&self) -> Seq<C> {
        self.redo_stack@
    }

    /// The configured maximum undo depth.
    pub closed spec fn spec_max_depth(&self) -> usize {
        self.max_depth
    }

    /// The stacks never hold more commands together than the undo depth allows.
    pub open spec fn wf(&self) -> bool {
        self.undo_seq().len() + self.redo_seq().len() <= self.spec_max_depth()
    }

    /// `self` is the state after `execute` on `prev` returned `Ok` (`ok`) or `Err`.
    pub open spec fn executed(&self, prev: &Self, ok: bool) -> bool {
        &&& self.spec_max_depth() == prev.spec_max_depth()
        &&& if ok && prev.spec_max_depth() == 0 {
            &&& self.redo_seq() == Seq::<C>::empty()
            &&& self.undo_seq() == Seq::<C>::empty()
        } else if ok {
            let kept = make_room(prev.undo_seq(), prev.spec_max_depth());
            &&& self.redo_seq() == Seq::<C>::empty()
            &&& self.undo_seq().len() == kept.len() + 1
            &&& self.undo_seq().drop_last() == kept
        } else {
            &&& self.undo_seq() == prev.undo_seq()
            &&& self.redo_seq() == prev.redo_seq()
        }
    }

    /// `self` is the state after a command moved from the top of `prev`'s
    /// `from` stack to the top of its `to` stack (`moved`), or after the move
    /// failed and the command went back where it came from.
    pub open spec fn spec_moved(from: Seq<C>, to: Seq<C>, new_from: Seq<C>, new_to: Seq<C>, moved: bool) -> bool {
        if moved {
            &&& new_from == from.drop_last()
            &&& new_to.len() == to.len() + 1
            &&& new_to.drop_last() == to
        } else {
            &&& new_from.len() == from.len()
            &&& new_from.drop_last() == from.drop_last()
            &&& new_to == to
        }
    }

    /// `self` is the state after `undo` on `prev` returned `r`.
    pub open spec fn undone<E>(&self, prev: &Self, r: Result<bool, E>) -> bool {
        &&& self.spec_max_depth() == prev.spec_max_depth()
        &&& match r {
            Ok(false) => {
                &&& prev.undo_seq().len() == 0
                &&& self.undo_seq() == prev.undo_seq()
                &&& self.redo_seq() == prev.redo_seq()
            },
            Ok(true) => {
                &&& prev.undo_seq().len() > 0
                &&& Self::spec_moved(prev.undo_seq(), prev.redo_seq(), self.undo_seq(), self.redo_seq(), true)
            },
            Err(_) => {
                &&& prev.undo_seq().len() > 0
                &&& Self::spec_moved(prev.undo_seq(), prev.redo_seq(), self.undo_seq(), self.redo_seq(), false)
            },
        }
    }

    /// `self` is the state after `redo` on `prev` returned `r`.
    pub open spec fn redone<E>(&self, prev: &Self, r: Result<bool, E>) -> bool {
        &&& self.spec_max_depth() == prev.spec_max_depth()
        &&& match r {
            Ok(false) => {
                &&& prev.redo_seq().len() == 0
                &&& self.undo_seq() == prev.undo_seq()
                &&& self.redo_seq() == prev.redo_seq()
            },
            Ok(true) => {
                &&& prev.redo_seq().len() > 0
                &&& Self::spec_moved(prev.redo_seq(), prev.undo_seq(), self.redo_seq(), self.undo_seq(), true)
            },
            Err(_) => {
                &&& prev.redo_seq().len() > 0
                &&& Self::spec_moved(prev.redo_seq(), prev.undo_seq(), self.redo_seq(), self.undo_seq(), false)
            },
        }
    }

    /// Create a new command history with the default max depth (256).
    pub fn new() -> (h: Self)
        ensures
            h.wf(),
            h.undo_seq() == Seq::<C>::empty(),
            h.redo_seq() == Seq::<C>::empty(),
            h.spec_max_depth() == DEFAULT_MAX_DEPTH,
    {
        CommandHistory { undo_stack: VecDeque::new(), redo_stack: Vec::new(), max_depth: DEFAULT_MAX_DEPTH }
    }

    /// Create a new command history with a custom max depth.
    pub fn with_max_depth(max_depth: usize) -> (h: Self)
        ensures
            h.wf(),
            h.undo_seq() == Seq::<C>::empty(),
            h.redo_seq() == Seq::<C>::empty(),
            h.spec_max_depth() == max_depth,
    {
        let capacity = if max_depth < 1024 { max_depth } else { 1024 };
        CommandHistory { undo_stack: VecDeque::with_capacity(capacity), redo_stack: Vec::new(), max_depth }
    }

    /// Whether there are commands that can be undone.
    pub fn can_undo(&self) -> (b: bool)
        ensures
            b == (self.undo_seq().len() > 0),
    {
        self.undo_stack.len() > 0
    }

    /// Whether there are commands that can be redone.
    pub fn can_redo(&self) -> (b: bool)
        ensures
            b == (self.redo_seq().len() > 0),
    {
        self.redo_stack.len() > 0
    }

    /// Number of commands in the undo stack.
    pub fn undo_count(&self) -> (n: usize)
        ensures
            n == self.undo_seq().len(),
    {
        self.undo_stack.len()
    }

    /// Number of commands in the redo stack.
    pub fn redo_count(&self) -> (n: usize)
        ensures
            n == self.redo_seq().len(),
    {
        self.redo_stack.len()
    }

    /// Maximum undo depth.
    pub fn max_depth(&self) -> (n: usize)
        ensures
            n == self.spec_max_depth(),
    {
        self.max_depth
    }

    /// Clear all history (both undo and redo stacks).
    pub fn clear(&mut self)
        ensures
            final(self).wf(),
            final(self).undo_seq() == Seq::<C>::empty(),
            final(self).redo_seq() == Seq::<C>::empty(),
            final(self).spec_max_depth() == old(self).spec_max_depth(),
    {
        self.undo_stack.clear();
        self.redo_stack.clear();
    }
}

impl<C> CommandHistory<C> {
    /// Finish an `execute` whose `apply` of `cmd` gave `outcome`: on `Ok`
    /// the redo stack is cleared, the oldest command leaves a full undo
    /// stack and `cmd` goes on top (with a depth of zero nothing is kept);
    /// on `Err` both stacks stay as they were. The outcome is handed back.
    fn finish_execute<E>(&mut self, cmd: C, outcome: Result<(), E>) -> (r: Result<(), E>)
        requires
            old(self).wf(),
        ensures
            final(self).wf(),
            final(self).executed(old(self), outcome is Ok),
            outcome is Ok && old(self).spec_max_depth() > 0 ==> final(self).undo_seq().last() == cmd,
            r == outcome,
    {
        if outcome.is_err() {
            return outcome;
        }
        if self.max_depth == 0 {
            self.redo_stack.clear();
            assert(self.undo_stack@ =~= Seq::<C>::empty());
            assert(self.redo_stack@ =~= Seq::<C>::empty());
            return outcome;
        }
        let ghost kept = make_room(self.undo_stack@, self.max_depth);
        self.redo_stack.clear();
        if self.undo_stack.len() >= self.max_depth {
            let _ = self.undo_stack.pop_front();
        }
        assert(self.undo_stack@ =~= kept);
        self.undo_stack.push_back(cmd);
        assert(self.undo_stack@.drop_last() =~= kept);
        assert(self.redo_stack@ =~= Seq::<C>::empty());
        outcome
    }
}

impl<C: Command> CommandHistory<C> {
    /// Execute a command: apply it to the target, then push it onto the undo
    /// stack. Clears the redo stack, and evicts the oldest command when the
    /// undo stack is at max depth; with a max depth of zero the command is
    /// applied but not kept. On error the command is dropped and both
    /// stacks are left as they were.
    pub fn execute(&mut self, cmd: C, target: &mut C::Target) -> (r: Result<(), C::Error>)
        requires
            old(self).wf(),
        ensures
            final(self).wf(),
            final(self).executed(old(self), r is Ok),
            exists|applied_cmd: C|
                #[trigger] C::applied(cmd, *old(target), applied_cmd, *final(target), r) && (r is Ok
                    && old(self).spec_max_depth() > 0 ==> final(self).undo_seq().last() == applied_cmd),
    {
        let ghost before = cmd;
        let mut cmd = cmd;
        let outcome = cmd.apply(target);
        let ghost after = cmd;
        let r = self.finish_execute(cmd, outcome);
        assert(C::applied(before, *old(target), after, *target, r));
        r
    }

    /// Undo the last command. Returns `Ok(true)` if a command was undone and
    /// moved to the redo stack, `Ok(false)` if the undo stack was empty.
    /// On error the command is put back on the undo stack (not lost).
    pub fn undo(&mut self, target: &mut C::Target) -> (r: Result<bool, C::Error>)
        requires
            old(self).wf(),
        ensures
            final(self).wf(),
            final(self).undone(old(self), r),
            r == Ok::<bool, C::Error>(false) ==> *final(target) == *old(target),
            r == Ok::<bool, C::Error>(true) ==> C::reversed(
                old(self).undo_seq().last(),
                *old(target),
                final(self).redo_seq().last(),
                *final(target),
                Ok(()),
            ),
            r matches Err(e) ==> C::reversed(
                old(self).undo_seq().last(),
                *old(target),
                final(self).undo_seq().last(),
                *final(target),
                Err(e),
            ),
    {
        let popped = self.undo_stack.pop_back();
        match popped {
            None => {
                assert(*target == *old(target));
                Ok(false)
            },
            Some(cmd) => {
                let ghost before = cmd;
                let mut cmd = cmd;
                let res = cmd.reverse(target);
                let ghost after = cmd;
                match res {
                    Err(e) => {
                        self.undo_stack.push_back(cmd);
                        assert(self.undo_stack@.drop_last() =~= old(self).undo_stack@.drop_last());
                        Err(e)
                    },
                    Ok(u) => {
                        assert(u == ());
                        assert(res == Ok::<(), C::Error>(()));
                        self.redo_stack.push(cmd);
                        assert(self.redo_stack@.drop_last() =~= old(self).redo_stack@);
                        Ok(true)
                    },
                }
            },
        }
    }

    /// Redo the last undone command. Returns `Ok(true)` if a command was
    /// redone and moved back to the undo stack, `Ok(false)` if the redo stack
    /// was empty. On error the command is put back on the redo stack.
    pub fn redo(&mut self, target: &mut C::Target) -> (r: Result<bool, C::Error>)
        requires
            old(self).wf(),
        ensures
            final(self).wf(),
            final(self).redone(old(self), r),
            r == Ok::<bool, C::Error>(false) ==> *final(target) == *old(target),
            r == Ok::<bool, C::Error>(true) ==> C::applied(
                old(self).redo_seq().last(),
                *old(target),
                final(self).undo_seq().last(),
                *final(target),
                Ok(()),
            ),
            r matches Err(e) ==> C::applied(
                old(self).redo_seq().last(),
                *old(target),
                final(self).redo_seq().last(),
                *final(target),
                Err(e),
            ),
    {
        let popped = self.redo_stack.pop();
        match popped {
            None => {
                assert(*target == *old(target));
                Ok(false)
            },
            Some(cmd) => {
                let ghost before = cmd;
                let mut cmd = cmd;
                let res = cmd.apply(target);
                let ghost after = cmd;
                match res {
                    Err(e) => {
                        self.redo_stack.push(cmd);
                        assert(self.redo_stack@.drop_last() =~= old(self).redo_stack@.drop_last());
                        Err(e)
                    },
                    Ok(u) => {
                        assert(u == ());
                        assert(res == Ok::<(), C::Error>(()));
                        self.undo_stack.push_back(cmd);
                        assert(self.undo_stack@.drop_last() =~= old(self).undo_stack@);
                        Ok(true)
                    },
                }
            },
        }
    }
}

/// The two stacks together never hold more than `max_depth` commands (none,
/// when `max_depth` is zero), whatever sequence of operations built the
/// history.
pub proof fn lemma_undo_depth_bounded<C>(h: CommandHistory<C>)
    requires
        h.wf(),
    ensures
        h.undo_seq().len() + h.redo_seq().len() <= h.spec_max_depth(),
        h.spec_max_depth() == 0 ==> h.undo_seq().len() == 0 && h.redo_seq().len() == 0,
{
}

/// A successful `execute` at full depth evicts the oldest command: every
/// other command moves down one place, in order, and the stack keeps its
/// size. Below full depth nothing is evicted: the commands stay where they
/// were and the stack grows by one. Either way nothing is left to redo.
pub proof fn lemma_execute_evicts_oldest<C>(h0: CommandHistory<C>, h1: CommandHistory<C>)
    requires
        h0.wf(),
        h0.spec_max_depth() > 0,
        h1.executed(&h0, true),
    ensures
        h1.redo_seq().len() == 0,
        h0.undo_seq().len() >= h0.spec_max_depth() ==> {
            &&& h1.undo_seq().len() == h0.undo_seq().len()
            &&& forall|i: int|
                0 <= i < h0.undo_seq().len() - 1 ==> #[trigger] h1.undo_seq()[i] == h0.undo_seq()[i + 1]
        },
        h0.undo_seq().len() < h0.spec_max_depth() ==> {
            &&& h1.undo_seq().len() == h0.undo_seq().len() + 1
            &&& forall|i: int| 0 <= i < h0.undo_seq().len() ==> #[trigger] h1.undo_seq()[i] == h0.undo_seq()[i]
        },
{
    let u0 = h0.undo_seq();
    let u1 = h1.undo_seq();
    if u0.len() >= h0.spec_max_depth() {
        assert forall|i: int| 0 <= i < u0.len() - 1 implies #[trigger] u1[i] == u0[i + 1] by {
            assert(u1[i] == u1.drop_last()[i]);
            assert(u0.drop_first()[i] == u0[i + 1]);
        }
    } else {
        assert forall|i: int| 0 <= i < u0.len() implies #[trigger] u1[i] == u0[i] by {
            assert(u1[i] == u1.drop_last()[i]);
        }
    }
}

/// A successful `execute` on a history with a depth above zero always leaves
/// something to undo and nothing to redo.
pub proof fn lemma_execute_enables_undo<C>(h0: CommandHistory<C>, h1: CommandHistory<C>)
    requires
        h0.spec_max_depth() > 0,
        h1.executed(&h0, true),
    ensures
        h1.undo_seq().len() > 0,
        h1.redo_seq().len() == 0,
{
}

/// Undoing a command and then redoing it restores both stacks, up to the
/// state the moved command captured along the way: the stacks have their
/// old sizes, and every other command is where it was.
pub proof fn lemma_undo_then_redo<C, E>(h0: CommandHistory<C>, h1: CommandHistory<C>, h2: CommandHistory<C>)
    requires
        h1.undone::<E>(&h0, Ok(true)),
        h2.redone::<E>(&h1, Ok(true)),
    ensures
        h2.undo_seq().len() == h0.undo_seq().len(),
        h2.undo_seq().drop_last() == h0.undo_seq().drop_last(),
        h2.redo_seq() == h0.redo_seq(),
        h2.spec_max_depth() == h0.spec_max_depth(),
{
}

/// Redoing a command and then undoing it restores both stacks, up to the
/// state the moved command captured along the way.
pub proof fn lemma_redo_then_undo<C, E>(h0: CommandHistory<C>, h1: CommandHistory<C>, h2: CommandHistory<C>)
    requires
        h1.redone::<E>(&h0, Ok(true)),
        h2.undone::<E>(&h1, Ok(true)),
    ensures
        h2.redo_seq().len() == h0.redo_seq().len(),
        h2.redo_seq().drop_last() == h0.redo_seq().drop_last(),
        h2.undo_seq() == h0.undo_seq(),
        h2.spec_max_depth() == h0.spec_max_depth(),
{
}

/// Undoing a command that `execute` applied restores the target, when the
/// command type's `reverse` undoes its `apply`: `h1` holds on top of its
/// undo stack what `apply` made of `cmd` (taking the target from `t0` to
/// `t1`), and `undo` reversed that top command successfully into `t2`.
pub proof fn lemma_undo_reverts_execute<C: Command>(
    h1: CommandHistory<C>,
    cmd: C,
    t0: C::Target,
    t1: C::Target,
    reversed_cmd: C,
    t2: C::Target,
)
    requires
        reverse_undoes_apply::<C>(),
        C::applied(cmd, t0, h1.undo_seq().last(), t1, Ok(())),
        C::reversed(h1.undo_seq().last(), t1, reversed_cmd, t2, Ok(())),
    ensures
        t2 == t0,
{
}

/// A command whose undo or redo fails is not lost: both stacks keep their sizes.
pub proof fn lemma_failed_step_keeps_counts<C, E>(h0: CommandHistory<C>, h1: CommandHistory<C>, e: E)
    requires
        h1.undone(&h0, Err::<bool, E>(e)) || h1.redone(&h0, Err::<bool, E>(e)),
    ensures
        h1.undo_seq().len() == h0.undo_seq().len(),
        h1.redo_seq().len() == h0.redo_seq().len(),
{
}

impl<C> Default for CommandHistory<C> {
    fn default() -> (h: Self)
        ensures
            h.wf(),
            h.undo_seq() == Seq::<C>::empty(),
            h.redo_seq() == Seq::<C>::empty(),
            h.spec_max_depth() == DEFAULT_MAX_DEPTH,
    {
        Self::new()
    }
}

} // verus!
