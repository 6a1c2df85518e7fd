//! Command bus: linear undo / redo stack.
use vstd::prelude::*;

use std::collections::VecDeque;

use super::any::AnyCommand;
use super::error::CommandError;
use super::{doc_wf, CelsModel, Command};
use crate::document::sprite::SpriteModel;
use crate::document::{CelMap, Sprite};

verus! {

/// Default cap on the undo stack.
pub const DEFAULT_HISTORY_CAP: usize = 100;

/// Linear undo / redo history.
///
/// Each call to [`Bus::execute`] applies the command, drops the redo stack,
/// and either coalesces with the previous entry (via [`Command::merge`]) or
/// pushes a new entry. When the undo stack exceeds the configured cap, the
/// oldest entry is dropped.
#[derive(Debug)]
pub struct Bus {
    undo: VecDeque<AnyCommand>,
    redo: Vec<AnyCommand>,
    cap: usize,
}

impl Bus {
    /// The commands that can be undone, oldest first.
    pub closed spec fn undo_stack(&self) -> Seq<AnyCommand> {
        self.undo@
    }

    /// The commands that can be redone, the next one last.
    pub closed spec fn redo_stack(&self) -> Seq<AnyCommand> {
        self.redo@
    }

    /// The cap on the undo stack.
    pub closed spec fn capacity(&self) -> usize {
        self.cap
    }

    /// The history never holds more entries than the cap, and every command
    /// that can be undone holds the undo state its revert needs.
    pub open spec fn wf(&self) -> bool {
        &&& self.undo_stack().len() + self.redo_stack().len() <= self.capacity()
        &&& forall|i: int| 0 <= i < self.undo_stack().len() ==> #[trigger] self.undo_stack()[i].inv()
    }

    /// Create a bus with the default history cap.
    pub fn new() -> (b: Self)
        ensures
            b.wf(),
            b.capacity() == DEFAULT_HISTORY_CAP,
            b.undo_stack().len() == 0,
            b.redo_stack().len() == 0,
    {
        Self::with_capacity(DEFAULT_HISTORY_CAP)
    }

    /// Create a bus with the given undo cap. A cap of `0` disables history.
    pub fn with_capacity(cap: usize) -> (b: Self)
        ensures
            b.wf(),
            b.capacity() == cap,
            b.undo_stack().len() == 0,
            b.redo_stack().len() == 0,
    {
        Bus { undo: VecDeque::new(), redo: Vec::new(), cap }
    }

    /// Apply `cmd` and push it onto the undo stack. The redo stack is cleared
    /// because executing a fresh command branches history. The call succeeds
    /// exactly when `cmd` applies to the document; a failed call changes
    /// neither the document nor the history.
    ///
    /// On success the new top of the undo stack undoes the command: either it
    /// is the command itself, whose revert gives back the state before this
    /// call, or the previous top absorbed it, and its revert gives back what
    /// the previous top's revert gave before.
    pub fn execute(&mut self, cmd: AnyCommand, doc: &mut Sprite, cels: &mut CelMap) -> (r: Result<
        (),
        CommandError,
    >)
        requires
            old(self).wf(),
            cmd.ready(),
            cmd.fits(old(doc)@),
            old(cels).wf(),
            doc_wf(old(doc)@, old(cels)@),
        ensures
            final(self).wf(),
            final(self).capacity() == old(self).capacity(),
            final(cels).wf(),
            doc_wf(final(doc)@, final(cels)@),
            r is Ok <==> cmd.succeeds_on(old(doc)@, old(cels)@),
            r matches Err(e) ==> cmd.fails_with(old(doc)@, old(cels)@, e),
            r is Ok ==> (final(doc)@, final(cels)@) == cmd.outcome(old(doc)@, old(cels)@),
            r is Err ==> {
                &&& final(doc)@ == old(doc)@
                &&& final(cels)@ == old(cels)@
                &&& final(self).undo_stack() == old(self).undo_stack()
                &&& final(self).redo_stack() == old(self).redo_stack()
            },
            r is Ok ==> final(self).redo_stack().len() == 0,
            r is Ok && old(self).capacity() == 0 ==> final(self).undo_stack() == old(
                self,
            ).undo_stack(),
            r is Ok && old(self).capacity() > 0 ==> {
                let u0 = old(self).undo_stack();
                let u1 = final(self).undo_stack();
                let top = u1.last();
                &&& u1.len() > 0
                &&& if u0.len() > 0 && u0.last().merges_with(&cmd) {
                    &&& u1.drop_last() == u0.drop_last()
                    &&& u0.last().applied_on(old(doc)@, old(cels)@) && cmd.exact_on(
                        old(doc)@,
                        old(cels)@,
                    ) ==> {
                        &&& top.applied_on(final(doc)@, final(cels)@)
                        &&& top.reverted(final(doc)@, final(cels)@) == u0.last().reverted(
                            old(doc)@,
                            old(cels)@,
                        )
                    }
                } else {
                    &&& top.applied_on(final(doc)@, final(cels)@)
                    &&& cmd.exact_on(old(doc)@, old(cels)@) ==> forall|b: AnyCommand|
                        #[trigger] top.reverts_to(b, final(doc)@, final(cels)@) ==> {
                            &&& b.ready()
                            &&& b.fits(old(doc)@)
                            &&& b.succeeds_on(old(doc)@, old(cels)@)
                            &&& b.outcome(old(doc)@, old(cels)@) == (final(doc)@, final(cels)@)
                        }
                    &&& cmd.exact_on(old(doc)@, old(cels)@) ==> top.reverted(
                        final(doc)@,
                        final(cels)@,
                    ) == (old(doc)@, old(cels)@)
                    &&& if u0.len() < old(self).capacity() {
                        u1.drop_last() == u0
                    } else {
                        u1.drop_last() == u0.subrange(1, u0.len() as int)
                    }
                }
            },
    {
        let mut cmd = cmd;
        let ghost d0 = doc@;
        let ghost k0 = cels@;
        cmd.apply(doc, cels)?;
        self.redo.clear();
        if self.cap == 0 {
            return Ok(());
        }
        let ghost u0 = self.undo@;
        match self.undo.pop_back() {
            Some(top) => {
                let mut top = top;
                let ghost t0 = top;
                if top.merge(&cmd) {
                    proof {
                        assert(top.reverted(doc@, cels@) == top.reverted(doc@, cels@));
                        assert(t0.reverted(d0, k0) == t0.reverted(d0, k0));
                    }
                    self.undo.push_back(top);
                    proof {
                        assert(self.undo@.drop_last() =~= u0.drop_last());
                    }
                    return Ok(());
                }
                self.undo.push_back(top);
                proof {
                    assert(self.undo@ =~= u0);
                }
            },
            None => {},
        }
        self.undo.push_back(cmd);
        if self.undo.len() > self.cap {
            let _ = self.undo.pop_front();
            proof {
                assert(self.undo@.drop_last() =~= u0.subrange(1, u0.len() as int));
            }
        } else {
            proof {
                assert(self.undo@.drop_last() =~= u0);
            }
        }
        Ok(())
    }

    /// Revert the most recent command. Returns `true` if a command was undone.
    pub fn undo(&mut self, doc: &mut Sprite, cels: &mut CelMap) -> (r: bool)
        requires
            old(self).wf(),
            old(cels).wf(),
            doc_wf(old(doc)@, old(cels)@),
        ensures
            final(self).wf(),
            final(self).capacity() == old(self).capacity(),
            final(cels).wf(),
            doc_wf(final(doc)@, final(cels)@),
            r == (old(self).undo_stack().len() > 0),
            r ==> {
                &&& (final(doc)@, final(cels)@) == old(self).undo_stack().last().reverted(
                    old(doc)@,
                    old(cels)@,
                )
                &&& final(self).undo_stack() == old(self).undo_stack().drop_last()
                &&& final(self).redo_stack().drop_last() == old(self).redo_stack()
                &&& old(self).undo_stack().last().reverts_to(
                    final(self).redo_stack().last(),
                    old(doc)@,
                    old(cels)@,
                )
                &&& final(self).redo_stack().len() == old(self).redo_stack().len() + 1
            },
            !r ==> {
                &&& final(doc)@ == old(doc)@
                &&& final(cels)@ == old(cels)@
                &&& final(self).undo_stack() == old(self).undo_stack()
                &&& final(self).redo_stack() == old(self).redo_stack()
            },
    {
        let ghost u0 = self.undo@;
        let cmd = match self.undo.pop_back() {
            Some(c) => c,
            None => {
                return false;
            },
        };
        let mut cmd = cmd;
        cmd.revert(doc, cels);
        let ghost r0 = self.redo@;
        self.redo.push(cmd);
        proof {
            assert(self.undo@ =~= u0.drop_last());
            assert(self.redo@.drop_last() =~= r0);
        }
        true
    }

    /// Re-apply the most recently undone command. Returns `Ok(true)` if a
    /// command was redone, `Ok(false)` when there is nothing to redo (or the
    /// next command no longer holds its payload, or its buffers would not fit
    /// in memory on this document, so it stays where it is).
    /// A command whose re-apply fails is dropped from the history.
    pub fn redo(&mut self, doc: &mut Sprite, cels: &mut CelMap) -> (r: Result<bool, CommandError>)
        requires
            old(self).wf(),
            old(cels).wf(),
            doc_wf(old(doc)@, old(cels)@),
        ensures
            final(self).wf(),
            final(self).capacity() == old(self).capacity(),
            final(cels).wf(),
            doc_wf(final(doc)@, final(cels)@),
            old(self).redo_stack().len() == 0 ==> r == Ok::<bool, CommandError>(false),
            old(self).redo_stack().len() > 0 && old(self).redo_stack().last().ready() && old(
                self,
            ).redo_stack().last().fits(old(doc)@) ==> {
                &&& r != Ok::<bool, CommandError>(false)
                &&& (r is Ok <==> old(self).redo_stack().last().succeeds_on(old(doc)@, old(cels)@))
            },
            r matches Err(e) ==> old(self).redo_stack().last().fails_with(old(doc)@, old(cels)@, e),
            r == Ok::<bool, CommandError>(false) ==> {
                &&& final(doc)@ == old(doc)@
                &&& final(cels)@ == old(cels)@
                &&& final(self).undo_stack() == old(self).undo_stack()
                &&& final(self).redo_stack() == old(self).redo_stack()
            },
            r == Ok::<bool, CommandError>(true) ==> {
                &&& final(self).redo_stack() == old(self).redo_stack().drop_last()
                &&& final(self).undo_stack().drop_last() == old(self).undo_stack()
                &&& final(self).undo_stack().last().applied_on(final(doc)@, final(cels)@)
                &&& (final(doc)@, final(cels)@) == old(self).redo_stack().last().outcome(old(doc)@, old(cels)@)
                &&& old(self).redo_stack().last().exact_on(old(doc)@, old(cels)@) ==> forall|b: AnyCommand|
                    #[trigger] final(self).undo_stack().last().reverts_to(b, final(doc)@, final(cels)@) ==> {
                        &&& b.ready()
                        &&& b.fits(old(doc)@)
                        &&& b.succeeds_on(old(doc)@, old(cels)@)
                        &&& b.outcome(old(doc)@, old(cels)@) == (final(doc)@, final(cels)@)
                    }
                &&& old(self).redo_stack().last().exact_on(old(doc)@, old(cels)@) ==> final(self).undo_stack().last().reverted(final(doc)@, final(cels)@) == (old(doc)@, old(cels)@)
            },
            r is Err ==> {
                &&& final(doc)@ == old(doc)@
                &&& final(cels)@ == old(cels)@
                &&& final(self).undo_stack() == old(self).undo_stack()
                &&& final(self).redo_stack() == old(self).redo_stack().drop_last()
            },
    {
        let ghost r0 = self.redo@;
        let ghost u0 = self.undo@;
        let cmd = match self.redo.pop() {
            Some(c) => c,
            None => {
                return Ok(false);
            },
        };
        if !cmd.is_ready() || !cmd.fits_doc(doc) {
            self.redo.push(cmd);
            proof {
                assert(self.redo@ =~= r0);
            }
            return Ok(false);
        }
        let mut cmd = cmd;
        cmd.apply(doc, cels)?;
        self.undo.push_back(cmd);
        proof {
            assert(self.undo@.drop_last() =~= u0);
        }
        Ok(true)
    }

    /// Number of commands available to undo.
    pub fn undo_depth(&self) -> (n: usize)
        ensures
            n == self.undo_stack().len(),
    {
        self.undo.len()
    }

    /// Number of commands available to redo.
    pub fn redo_depth(&self) -> (n: usize)
        ensures
            n == self.redo_stack().len(),
    {
        self.redo.len()
    }
}

impl Default for Bus {
    fn default() -> (b: Self)
        ensures
            b.wf(),
            b.capacity() == DEFAULT_HISTORY_CAP,
            b.undo_stack().len() == 0,
            b.redo_stack().len() == 0,
    {
        Self::new()
    }
}

/// Undo then redo gives back the state an execution left. When
/// [`Bus::execute`] pushed `top` on taking `(d0, c0)` to `(d1, c1)` with a
/// command that undoes exactly there, [`Bus::undo`] takes the document back
/// to `(d0, c0)` and leaves `back` to redo; [`Bus::redo`] then finds `back`
/// ready and fitting, applies it successfully, and lands on `(d1, c1)`.
pub proof fn lemma_undo_redo_round_trip(
    top: AnyCommand,
    back: AnyCommand,
    d0: SpriteModel,
    c0: CelsModel,
    d1: SpriteModel,
    c1: CelsModel,
)
    requires
        top.reverted(d1, c1) == (d0, c0),
        forall|b: AnyCommand|
            #[trigger] top.reverts_to(b, d1, c1) ==> {
                &&& b.ready()
                &&& b.fits(d0)
                &&& b.succeeds_on(d0, c0)
                &&& b.outcome(d0, c0) == (d1, c1)
            },
        top.reverts_to(back, d1, c1),
    ensures
        back.ready(),
        back.fits(top.reverted(d1, c1).0),
        back.succeeds_on(top.reverted(d1, c1).0, top.reverted(d1, c1).1),
        back.outcome(top.reverted(d1, c1).0, top.reverted(d1, c1).1) == (d1, c1),
{
}

} // verus!
