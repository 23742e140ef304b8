//! Running an agent: the command that asks it, how its process ended, and how many run at once.

use vstd::prelude::*;

pub mod exit;
pub mod invocation;
pub mod run;
pub mod session;
pub mod work;

verus! {

/// The permissions of a budget: those that are given out and not handed back, the number of the next
/// one, and how many may be out.
#[verifier::ext_equal]
pub struct Permits {
    pub lent: Set<nat>,
    pub next: nat,
    pub limit: nat,
}

/// What is done with a budget.
pub enum Step {
    /// A permission is asked for.
    Ask,
    /// The permission of a number is handed back, by its holder or because the holder gave up.
    HandBack(nat),
}

impl Permits {
    /// A budget that nothing was asked of.
    pub open spec fn fresh(limit: nat) -> Permits {
        Permits { lent: Set::empty(), next: 0, limit }
    }

    /// Another permission may be given out.
    pub open spec fn has_room(self) -> bool {
        self.lent.len() < self.limit
    }

    /// The budget after a permission was asked for: one of a new number is out, where there is room.
    pub open spec fn asked(self) -> Permits {
        if self.has_room() {
            Permits { lent: self.lent.insert(self.next), next: self.next + 1, ..self }
        } else {
            self
        }
    }

    /// The budget after a permission was handed back.
    pub open spec fn handed_back(self, number: nat) -> Permits {
        Permits { lent: self.lent.remove(number), ..self }
    }

    /// The budget after a step.
    pub open spec fn after(self, step: Step) -> Permits {
        match step {
            Step::Ask => self.asked(),
            Step::HandBack(number) => self.handed_back(number),
        }
    }

    /// No number is given out twice, and no more permissions are out than may be.
    pub open spec fn sound(self) -> bool {
        &&& self.lent.finite()
        &&& self.lent.len() <= self.limit
        &&& forall|n: nat| self.lent.contains(n) ==> n < self.next
    }
}

/// The budget after steps, from when nothing was asked of it.
pub open spec fn after_all(limit: nat, steps: Seq<Step>) -> Permits
    decreases steps.len(),
{
    if steps.len() == 0 {
        Permits::fresh(limit)
    } else {
        after_all(limit, steps.drop_last()).after(steps.last())
    }
}

/// A count of those at work, and the most that may be.
pub struct Semaphore {
    held: usize,
    max: usize,
    lent: Ghost<Set<nat>>,
    next: Ghost<nat>,
}

/// The permission of one to be at work. Only [`Semaphore::acquire`] gives one out, and there is no way
/// to copy one.
pub struct SemaphoreGuard {
    number: Ghost<nat>,
}

impl SemaphoreGuard {
    /// The number of the permission.
    pub closed spec fn number(&self) -> nat {
        self.number@
    }
}

impl Semaphore {
    #[verifier::type_invariant]
    spec fn well_formed(self) -> bool {
        &&& self.held <= self.max
        &&& self.lent@.len() == self.held
        &&& self.permits().sound()
    }

    /// The permissions: which are out, and how many may be.
    pub closed spec fn permits(&self) -> Permits {
        Permits { lent: self.lent@, next: self.next@, limit: self.max as nat }
    }

    fn new(max: usize) -> (r: Semaphore)
        ensures
            r.permits() == Permits::fresh(max as nat),
    {
        Semaphore { held: 0, max, lent: Ghost(Set::empty()), next: Ghost(0) }
    }

    /// A permission, where fewer are out than may be. Where none is given the caller waits for one to
    /// be handed back and asks again.
    pub fn acquire(&mut self) -> (r: Option<SemaphoreGuard>)
        ensures
            final(self).permits() == old(self).permits().asked(),
            r is Some <==> old(self).permits().has_room(),
            r matches Some(g) ==> g.number() == old(self).permits().next && !old(
                self,
            ).permits().lent.contains(g.number()),
            final(self).permits().sound(),
    {
        proof {
            use_type_invariant(&*self);
        }
        if self.held < self.max {
            let ghost number = self.next@;
            let fuller = Semaphore {
                held: self.held + 1,
                max: self.max,
                lent: Ghost(self.lent@.insert(number)),
                next: Ghost(number + 1),
            };
            *self = fuller;
            Some(SemaphoreGuard { number: Ghost(number) })
        } else {
            None
        }
    }

    /// Takes back a permission that is out.
    pub fn release(&mut self, guard: SemaphoreGuard)
        requires
            old(self).permits().lent.contains(guard.number()),
        ensures
            final(self).permits() == old(self).permits().handed_back(guard.number()),
            final(self).permits().has_room(),
            final(self).permits().sound(),
    {
        proof {
            use_type_invariant(&*self);
        }
        let lighter = Semaphore {
            held: self.held - 1,
            max: self.max,
            lent: Ghost(self.lent@.remove(guard.number@)),
            next: Ghost(self.next@),
        };
        *self = lighter;
    }
}

/// The budget of a run: one for all of its phases.
pub struct Pool(Semaphore);

impl Pool {
    /// The permissions: which are out, and how many may be.
    pub closed spec fn permits(&self) -> Permits {
        self.0.permits()
    }

    /// The budget of a run.
    pub fn for_run(parallel: usize) -> (r: Pool)
        ensures
            r.permits() == Permits::fresh(parallel as nat),
    {
        Pool(Semaphore::new(parallel))
    }

    /// The workers that a run starts: as many as may be at work, and one at least.
    pub fn width(&self) -> (r: usize)
        ensures
            r == (if self.permits().limit == 0 {
                1nat
            } else {
                self.permits().limit
            }),
    {
        if self.0.max == 0 {
            1
        } else {
            self.0.max
        }
    }

    /// A permission, where fewer are out than may be.
    pub fn acquire(&mut self) -> (r: Option<SemaphoreGuard>)
        ensures
            final(self).permits() == old(self).permits().asked(),
            r is Some <==> old(self).permits().has_room(),
            r matches Some(g) ==> g.number() == old(self).permits().next && !old(
                self,
            ).permits().lent.contains(g.number()),
            final(self).permits().sound(),
    {
        self.0.acquire()
    }

    /// Takes back a permission that is out.
    pub fn release(&mut self, guard: SemaphoreGuard)
        requires
            old(self).permits().lent.contains(guard.number()),
        ensures
            final(self).permits() == old(self).permits().handed_back(guard.number()),
            final(self).permits().has_room(),
            final(self).permits().sound(),
    {
        self.0.release(guard)
    }
}

// ---------------------------------------------------------------------------
// Laws
// ---------------------------------------------------------------------------

/// Whatever was asked for and handed back, in whatever order and by however many, no more permissions
/// are out than may be, and another is given exactly where fewer are.
pub proof fn law_no_more_are_at_work_than_may_be(limit: nat, steps: Seq<Step>)
    ensures
        after_all(limit, steps).lent.len() <= limit,
        after_all(limit, steps).sound(),
        after_all(limit, steps).limit == limit,
        after_all(limit, steps).asked().lent != after_all(limit, steps).lent <==> after_all(
            limit,
            steps,
        ).lent.len() < limit,
    decreases steps.len(),
{
    let p = after_all(limit, steps);
    if steps.len() > 0 {
        law_no_more_are_at_work_than_may_be(limit, steps.drop_last());
        let q = after_all(limit, steps.drop_last());
        match steps.last() {
            Step::Ask => {},
            Step::HandBack(number) => {
                if !q.lent.contains(number) {
                    assert(q.lent.remove(number) =~= q.lent);
                }
            },
        }
    }
    if p.has_room() {
        assert(p.asked().lent.contains(p.next));
        assert(!p.lent.contains(p.next));
    }
}

/// A permission that is handed back makes room for another, however its holder came to hand it back:
/// nobody stays blocked on account of one that gave up.
pub proof fn law_what_is_handed_back_is_given_again(limit: nat, steps: Seq<Step>, number: nat)
    requires
        after_all(limit, steps).lent.contains(number),
    ensures
        after_all(limit, steps.push(Step::HandBack(number))).has_room(),
        !after_all(limit, steps.push(Step::HandBack(number))).lent.contains(number),
{
    law_no_more_are_at_work_than_may_be(limit, steps);
    assert(steps.push(Step::HandBack(number)).drop_last() =~= steps);
}

} // verus!
