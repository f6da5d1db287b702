//! Saved execution state of a task.

use vstd::prelude::*;

verus! {

/// The machine state from which a suspended task resumes: the resume address,
/// the stack pointer and the callee-saved registers.
///
/// The scheduler keeps the context that each task is loaded with and hands it
/// out; it never looks inside one and never changes one.
#[derive(Clone, Copy, Debug, PartialEq, Eq)]
pub struct TaskContext {
    /// Address at which execution resumes.
    pub ra: usize,
    /// Stack pointer to resume with.
    pub sp: usize,
    /// Callee-saved registers.
    pub s: [usize; 12],
}

impl TaskContext {
    /// The context that resumes at `resume` on the stack `stack`, with every
    /// callee-saved register zero.
    pub open spec fn entry(resume: usize, stack: usize) -> TaskContext {
        TaskContext {
            ra: resume,
            sp: stack,
            s: vstd::array::spec_array_fill_for_copy_type::<usize, 12>(0),
        }
    }

    /// The blank context: every register zero.
    pub open spec fn zero() -> TaskContext {
        Self::entry(0, 0)
    }

    /// The blank context.
    pub fn zero_init() -> (cx: Self)
        ensures
            cx == Self::zero(),
    {
        TaskContext { ra: 0, sp: 0, s: [0; 12] }
    }

    /// The context of a task that has not run yet: it resumes at `restore`, the
    /// routine that leaves the kernel, with `kstack_ptr` as its stack pointer.
    pub fn goto_restore(restore: usize, kstack_ptr: usize) -> (cx: Self)
        ensures
            cx == Self::entry(restore, kstack_ptr),
    {
        TaskContext { ra: restore, sp: kstack_ptr, s: [0; 12] }
    }
}

/// An entry context holds the two given values and zero in every callee-saved
/// register, and nothing else tells two such contexts apart.
pub proof fn lemma_entry_context(cx: TaskContext, resume: usize, stack: usize)
    ensures
        cx == TaskContext::entry(resume, stack) <==> {
            &&& cx.ra == resume
            &&& cx.sp == stack
            &&& forall|i: int| 0 <= i < 12 ==> cx.s[i] == 0
        },
{
    let e = TaskContext::entry(resume, stack);
    assert(forall|i: int| 0 <= i < 12 ==> e.s[i] == 0);
    if cx.ra == resume && cx.sp == stack && (forall|i: int| 0 <= i < 12 ==> cx.s[i] == 0) {
        assert(cx.s =~= e.s);
    }
}

} // verus!
