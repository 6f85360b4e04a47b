//! Address-triggered hooks: what the debugger registers, and what is owed to
//! it each time execution reaches an address.

use vstd::prelude::*;

verus! {

/// What a hook is registered with and what its callback gets back on every
/// trigger: the trigger address and a word that only the debugger reads.
#[derive(Clone, Copy, Debug, PartialEq, Eq, Structural)]
pub struct HookContext {
    /// Execution reaching this address triggers the hook.
    pub address: u64,
    /// Debugger-defined data, carried through untouched.
    pub metadata: u64,
}

/// A reference to a function of the debugger, by its address.
#[derive(Clone, Copy, Debug, PartialEq, Eq, Structural)]
pub struct Callback {
    /// Where the function stands.
    pub entry: u64,
}

/// One installed hook, which is also one owed call:
/// `callback(emu, context)`.
#[derive(Clone, Copy, Debug, PartialEq, Eq, Structural)]
pub struct Hook {
    /// The function to call.
    pub callback: Callback,
    /// The debugger's own handle, handed back as the first argument.
    pub emu: u64,
    /// The context given at registration, handed back as the second.
    pub context: HookContext,
}

/// The calls owed when execution reaches `address`: the hooks registered at
/// that address, each once, in the order of registration.
pub open spec fn fired(hooks: Seq<Hook>, address: u64) -> Seq<Hook>
    decreases hooks.len(),
{
    if hooks.len() == 0 {
        Seq::empty()
    } else {
        let earlier = fired(hooks.drop_last(), address);
        if hooks.last().context.address == address {
            earlier.push(hooks.last())
        } else {
            earlier
        }
    }
}

/// The calls owed while execution walks `path`, one address after the other.
pub open spec fn calls_along(hooks: Seq<Hook>, path: Seq<u64>) -> Seq<Hook>
    decreases path.len(),
{
    if path.len() == 0 {
        Seq::empty()
    } else {
        calls_along(hooks, path.drop_last()) + fired(hooks, path.last())
    }
}

/// How often `path` reaches `address`.
pub open spec fn visits(path: Seq<u64>, address: u64) -> nat
    decreases path.len(),
{
    if path.len() == 0 {
        0
    } else if path.last() == address {
        visits(path.drop_last(), address) + 1
    } else {
        visits(path.drop_last(), address)
    }
}

/// How often `hook` stands in `calls`.
pub open spec fn times_called(calls: Seq<Hook>, hook: Hook) -> nat
    decreases calls.len(),
{
    if calls.len() == 0 {
        0
    } else if calls.last() == hook {
        times_called(calls.drop_last(), hook) + 1
    } else {
        times_called(calls.drop_last(), hook)
    }
}

/// Registering a hook adds one call, of that hook with its context as given,
/// behind the calls owed at its address, and changes nothing at any other
/// address.
pub proof fn lemma_registered_hook_fires(hooks: Seq<Hook>, hook: Hook, address: u64)
    ensures
        hook.context.address == address ==> fired(hooks.push(hook), address) == fired(
            hooks,
            address,
        ).push(hook),
        hook.context.address != address ==> fired(hooks.push(hook), address) == fired(
            hooks,
            address,
        ),
{
    assert(hooks.push(hook).drop_last() =~= hooks);
}

/// Two hooks registered at one address are both called there, in the order
/// of their registration, behind the calls that were owed before.
pub proof fn lemma_two_hooks_both_fire(hooks: Seq<Hook>, first: Hook, second: Hook)
    requires
        first.context.address == second.context.address,
    ensures
        fired(hooks.push(first).push(second), first.context.address) == fired(
            hooks,
            first.context.address,
        ).push(first).push(second),
{
    lemma_registered_hook_fires(hooks, first, first.context.address);
    lemma_registered_hook_fires(hooks.push(first), second, first.context.address);
}

/// The calls owed at an address are the installed hooks of that address:
/// none is left out and none is made up.
pub proof fn lemma_fired_hooks(hooks: Seq<Hook>, address: u64)
    ensures
        forall|h: Hook|
            #![trigger fired(hooks, address).contains(h)]
            #![trigger hooks.contains(h)]
            fired(hooks, address).contains(h) <==> hooks.contains(h) && h.context.address
                == address,
    decreases hooks.len(),
{
    if hooks.len() > 0 {
        let earlier = hooks.drop_last();
        let last = hooks.last();
        lemma_fired_hooks(earlier, address);
        assert forall|h: Hook|
            #![trigger fired(hooks, address).contains(h)]
            #![trigger hooks.contains(h)]
            fired(hooks, address).contains(h) <==> hooks.contains(h) && h.context.address
                == address by {
            let calls = fired(earlier, address);
            if fired(hooks, address).contains(h) {
                let i = choose|i: int|
                    0 <= i < fired(hooks, address).len() && fired(hooks, address)[i] == h;
                if last.context.address == address && i == calls.len() {
                    assert(hooks[hooks.len() - 1] == h);
                } else {
                    assert(calls[i] == h);
                    assert(calls.contains(h));
                    let j = choose|j: int| 0 <= j < earlier.len() && earlier[j] == h;
                    assert(hooks[j] == h);
                }
            }
            if hooks.contains(h) && h.context.address == address {
                let j = choose|j: int| 0 <= j < hooks.len() && hooks[j] == h;
                if j == hooks.len() - 1 {
                    assert(fired(hooks, address)[calls.len() as int] == h);
                } else {
                    assert(earlier[j] == h);
                    assert(earlier.contains(h));
                    let i = choose|i: int| 0 <= i < calls.len() && calls[i] == h;
                    assert(fired(hooks, address)[i] == h);
                }
            }
        }
    }
}

/// Counting a hook in two runs of calls, one behind the other.
pub proof fn lemma_times_called_concat(front: Seq<Hook>, back: Seq<Hook>, hook: Hook)
    ensures
        times_called(front + back, hook) == times_called(front, hook) + times_called(back, hook),
    decreases back.len(),
{
    if back.len() == 0 {
        assert(front + back =~= front);
    } else {
        assert((front + back).drop_last() =~= front + back.drop_last());
        assert((front + back).last() == back.last());
        lemma_times_called_concat(front, back.drop_last(), hook);
    }
}

/// Along any path, registering a hook adds exactly one call of it for each
/// time the path reaches its address.
pub proof fn lemma_one_call_per_visit(hooks: Seq<Hook>, hook: Hook, path: Seq<u64>)
    ensures
        times_called(calls_along(hooks.push(hook), path), hook) == times_called(
            calls_along(hooks, path),
            hook,
        ) + visits(path, hook.context.address),
    decreases path.len(),
{
    if path.len() > 0 {
        let before = path.drop_last();
        let address = path.last();
        lemma_one_call_per_visit(hooks, hook, before);
        lemma_registered_hook_fires(hooks, hook, address);
        lemma_times_called_concat(calls_along(hooks, before), fired(hooks, address), hook);
        lemma_times_called_concat(
            calls_along(hooks.push(hook), before),
            fired(hooks.push(hook), address),
            hook,
        );
        if hook.context.address == address {
            assert(fired(hooks, address).push(hook).drop_last() =~= fired(hooks, address));
        }
    }
}

/// The hooks installed on one emulator. A hook, once installed, stays.
pub struct HookTable {
    /// The hooks, in the order of registration.
    pub hooks: Vec<Hook>,
}

impl HookTable {
    /// The installed hooks, in the order of registration.
    pub open spec fn view(&self) -> Seq<Hook> {
        self.hooks@
    }

    /// A table with no hook.
    pub fn new() -> (t: HookTable)
        ensures
            t@ == Seq::<Hook>::empty(),
    {
        HookTable { hooks: Vec::new() }
    }

    /// Installs a hook behind those that are already there.
    pub fn hook_address(&mut self, hook: Hook)
        ensures
            final(self)@ == old(self)@.push(hook),
    {
        self.hooks.push(hook);
    }

    /// The calls to make now that execution has reached `address`, before
    /// the instruction there runs.
    pub fn triggered(&self, address: u64) -> (calls: Vec<Hook>)
        ensures
            calls@ == fired(self@, address),
    {
        let mut calls: Vec<Hook> = Vec::new();
        let mut i: usize = 0;
        while i < self.hooks.len()
            invariant
                i <= self.hooks@.len(),
                calls@ == fired(self.hooks@.take(i as int), address),
            decreases self.hooks@.len() - i,
        {
            let hook = self.hooks[i];
            proof {
                let next = self.hooks@.take(i + 1);
                assert(next.drop_last() =~= self.hooks@.take(i as int));
                assert(next.last() == hook);
            }
            if hook.context.address == address {
                calls.push(hook);
            }
            i += 1;
        }
        assert(self.hooks@.take(i as int) =~= self.hooks@);
        calls
    }

    /// The calls to make while execution walks `path`: at each address in
    /// turn, what `triggered` owes there.
    pub fn calls_on_path(&self, path: &[u64]) -> (calls: Vec<Hook>)
        ensures
            calls@ == calls_along(self@, path@),
    {
        let mut calls: Vec<Hook> = Vec::new();
        let mut i: usize = 0;
        while i < path.len()
            invariant
                i <= path@.len(),
                calls@ == calls_along(self@, path@.take(i as int)),
            decreases path@.len() - i,
        {
            let mut here = self.triggered(path[i]);
            proof {
                let next = path@.take(i + 1);
                assert(next.drop_last() =~= path@.take(i as int));
                assert(next.last() == path@[i as int]);
            }
            calls.append(&mut here);
            i += 1;
        }
        assert(path@.take(i as int) =~= path@);
        calls
    }
}

} // verus!
