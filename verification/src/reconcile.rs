//! Reconciliation of a native child container against a target order.
//!
//! Children are identified by integers. The container is modelled by the
//! sequence of its children; the calls that change it are values of
//! [`NativeCall`], and [`replay`] says what a list of calls does to a
//! container.

use vstd::prelude::*;

verus! {

/// One call on the native child container.
#[derive(Clone, Copy, Debug, PartialEq, Eq, Structural)]
pub enum NativeCall {
    /// Takes `child` out of the container.
    Detach { child: u64 },
    /// Moves `child`, which is in the container, to `position`.
    Reorder { child: u64, position: usize },
    /// Puts the newly built `child` into the container at `position`.
    Attach { child: u64, position: usize },
}

/// The container `native` after `call`. A call that does not apply (a child
/// that is not there, a position beyond the end) leaves the container as it is.
pub open spec fn replay_one(native: Seq<u64>, call: NativeCall) -> Seq<u64> {
    match call {
        NativeCall::Detach { child } => if native.contains(child) {
            native.remove(native.index_of(child))
        } else {
            native
        },
        NativeCall::Reorder { child, position } => if native.contains(child) && position
            < native.len() {
            native.remove(native.index_of(child)).insert(position as int, child)
        } else {
            native
        },
        NativeCall::Attach { child, position } => if position <= native.len() {
            native.insert(position as int, child)
        } else {
            native
        },
    }
}

/// The container `native` after `calls`, made in order.
pub open spec fn replay(native: Seq<u64>, calls: Seq<NativeCall>) -> Seq<u64>
    decreases calls.len(),
{
    if calls.len() == 0 {
        native
    } else {
        replay_one(replay(native, calls.drop_last()), calls.last())
    }
}

/// In a sequence without duplicates an element has one index.
pub proof fn lemma_index_of_unique(s: Seq<u64>, i: int)
    requires
        s.no_duplicates(),
        0 <= i < s.len(),
    ensures
        s.contains(s[i]),
        s.index_of(s[i]) == i,
{
}

/// Replaying one more call is replaying the list and then the call.
pub proof fn lemma_replay_push(native: Seq<u64>, calls: Seq<NativeCall>, call: NativeCall)
    ensures
        replay(native, calls.push(call)) == replay_one(replay(native, calls), call),
{
    assert(calls.push(call).drop_last() =~= calls);
}

/// The first index of `child` in `children`, if it is there.
pub fn find(children: &Vec<u64>, child: u64) -> (found: Option<usize>)
    ensures
        match found {
            Some(i) => i < children.len() && children[i as int] == child && forall|k: int|
                0 <= k < i ==> children[k] != child,
            None => !children@.contains(child),
        },
{
    let mut i: usize = 0;
    while i < children.len()
        invariant
            i <= children.len(),
            forall|k: int| 0 <= k < i ==> children[k] != child,
        decreases children.len() - i,
    {
        if children[i] == child {
            return Some(i);
        }
        i += 1;
    }
    None
}

/// Taking one child out of a container without duplicates.
pub proof fn lemma_remove_facts(s: Seq<u64>, i: int)
    requires
        s.no_duplicates(),
        0 <= i < s.len(),
    ensures
        s.remove(i).len() == s.len() - 1,
        s.remove(i).no_duplicates(),
        !s.remove(i).contains(s[i]),
        forall|x: u64|
            #![trigger s.remove(i).contains(x)]
            #![trigger s.contains(x)]
            x != s[i] ==> (s.remove(i).contains(x) <==> s.contains(x)),
        forall|k: int| 0 <= k < i ==> s.remove(i)[k] == s[k],
        forall|k: int| i <= k < s.len() - 1 ==> s.remove(i)[k] == s[k + 1],
{
    let t = s.remove(i);
    assert forall|a: int, b: int| 0 <= a < t.len() && 0 <= b < t.len() && a != b implies t[a]
        != t[b] by {
        let a0 = if a < i { a } else { a + 1 };
        let b0 = if b < i { b } else { b + 1 };
        assert(t[a] == s[a0] && t[b] == s[b0]);
    }
    if t.contains(s[i]) {
        let k = t.index_of(s[i]);
        let k0 = if k < i { k } else { k + 1 };
        assert(t[k] == s[k0]);
    }
    assert forall|x: u64| x != s[i] implies (t.contains(x) <==> s.contains(x)) by {
        if t.contains(x) {
            let k = t.index_of(x);
            let k0 = if k < i { k } else { k + 1 };
            assert(s[k0] == x);
        }
        if s.contains(x) {
            let k0 = s.index_of(x);
            let k = if k0 < i { k0 } else { k0 - 1 };
            assert(t[k] == x);
        }
    }
}

/// Putting a child that is not there into a container without duplicates.
pub proof fn lemma_insert_facts(s: Seq<u64>, i: int, x: u64)
    requires
        s.no_duplicates(),
        !s.contains(x),
        0 <= i <= s.len(),
    ensures
        s.insert(i, x).len() == s.len() + 1,
        s.insert(i, x).no_duplicates(),
        s.insert(i, x)[i] == x,
        forall|y: u64|
            #![trigger s.insert(i, x).contains(y)]
            #![trigger s.contains(y)]
            s.insert(i, x).contains(y) <==> (y == x || s.contains(y)),
        forall|k: int| 0 <= k < i ==> s.insert(i, x)[k] == s[k],
        forall|k: int| i < k <= s.len() ==> s.insert(i, x)[k] == s[k - 1],
{
    let t = s.insert(i, x);
    assert forall|a: int, b: int| 0 <= a < t.len() && 0 <= b < t.len() && a != b implies t[a]
        != t[b] by {
        if a != i {
            let a0 = if a < i { a } else { a - 1 };
            assert(t[a] == s[a0]);
        }
        if b != i {
            let b0 = if b < i { b } else { b - 1 };
            assert(t[b] == s[b0]);
        }
    }
    assert forall|y: u64| t.contains(y) <==> (y == x || s.contains(y)) by {
        if t.contains(y) && y != x {
            let k = t.index_of(y);
            let k0 = if k < i { k } else { k - 1 };
            assert(s[k0] == y);
        }
        if s.contains(y) {
            let k0 = s.index_of(y);
            let k = if k0 < i { k0 } else { k0 + 1 };
            assert(t[k] == y);
        }
        if y == x {
            assert(t[i] == x);
        }
    }
}

/// Whether the step from `before` to `target` calls for `call`: a child is
/// detached only if it has left, attached only if it is new, and reordered only
/// if it was there and stays; an attached or reordered child goes to the place
/// it has in `target`.
pub open spec fn call_is_owed(before: Seq<u64>, target: Seq<u64>, call: NativeCall) -> bool {
    match call {
        NativeCall::Detach { child } => before.contains(child) && !target.contains(child),
        NativeCall::Reorder { child, position } => before.contains(child) && position
            < target.len() && target[position as int] == child,
        NativeCall::Attach { child, position } => !before.contains(child) && position
            < target.len() && target[position as int] == child,
    }
}

/// What is owed of the calls that take a container from `before` to `target`:
/// replayed on `before` they give `target`; each of them is called for; every
/// child that has left is detached and every new child is attached at its
/// place; and where nothing has changed, nothing is called.
pub open spec fn reconciles(before: Seq<u64>, target: Seq<u64>, calls: Seq<NativeCall>) -> bool {
    &&& replay(before, calls) == target
    &&& forall|k: int| 0 <= k < calls.len() ==> call_is_owed(before, target, #[trigger] calls[k])
    &&& forall|c: u64|
        before.contains(c) && !target.contains(c) ==> calls.contains(
            (NativeCall::Detach { child: c }),
        )
    &&& forall|p: int|
        0 <= p < target.len() && !before.contains(#[trigger] target[p]) ==> calls.contains(
            (NativeCall::Attach { child: target[p], position: p as usize }),
        )
    &&& before == target ==> calls.len() == 0
}

/// The index of `child` in `children`, if it is there.
pub open spec fn place(children: Seq<u64>, child: u64) -> Option<int> {
    if children.contains(child) {
        Some(children.index_of(child))
    } else {
        None
    }
}

/// The children of `before` that stay, in its order: those that `target`
/// holds too.
pub open spec fn kept(before: Seq<u64>, target: Seq<u64>) -> Seq<u64>
    decreases before.len(),
{
    if before.len() == 0 {
        Seq::empty()
    } else if target.contains(before.last()) {
        kept(before.drop_last(), target).push(before.last())
    } else {
        kept(before.drop_last(), target)
    }
}

/// One `Detach` for each child of `before` that has left, in its order.
pub open spec fn detaches(before: Seq<u64>, target: Seq<u64>) -> Seq<NativeCall>
    decreases before.len(),
{
    if before.len() == 0 {
        Seq::empty()
    } else if target.contains(before.last()) {
        detaches(before.drop_last(), target)
    } else {
        detaches(before.drop_last(), target).push(NativeCall::Detach { child: before.last() })
    }
}

/// The container once the first `p` places of `target` are filled: the
/// children that stay, where each of the first `p` children of `target` in
/// turn has been put in its place.
pub open spec fn placed(before: Seq<u64>, target: Seq<u64>, p: int) -> Seq<u64>
    decreases p,
{
    if p <= 0 {
        kept(before, target)
    } else {
        let shown = placed(before, target, p - 1);
        let child = target[p - 1];
        if shown.contains(child) {
            shown.remove(shown.index_of(child)).insert(p - 1, child)
        } else {
            shown.insert(p - 1, child)
        }
    }
}

/// The calls that fill the first `p` places of `target`: for each place in
/// turn an `Attach` where its child is not in the container, a `Reorder` where
/// it is there at another place, and nothing where it is already at the place.
pub open spec fn placements(before: Seq<u64>, target: Seq<u64>, p: int) -> Seq<NativeCall>
    decreases p,
{
    if p <= 0 {
        Seq::empty()
    } else {
        let calls = placements(before, target, p - 1);
        let shown = placed(before, target, p - 1);
        let child = target[p - 1];
        if !shown.contains(child) {
            calls.push(NativeCall::Attach { child, position: (p - 1) as usize })
        } else if shown.index_of(child) == p - 1 {
            calls
        } else {
            calls.push(NativeCall::Reorder { child, position: (p - 1) as usize })
        }
    }
}

/// The calls that take a container from `before` to `target`: the detaches,
/// then the placements.
pub open spec fn calls_for(before: Seq<u64>, target: Seq<u64>) -> Seq<NativeCall> {
    detaches(before, target) + placements(before, target, target.len() as int)
}

/// Brings the container `native` to the order `target` and returns the calls
/// that do so on the native side: first one `Detach` for each child that has
/// left, in the container's order, then, walking `target` from the front, an
/// `Attach` for each new child and a `Reorder` for each remaining child that is
/// not yet in its place. Replayed on the container as it was, the calls give
/// `target`.
pub fn reconcile(native: &mut Vec<u64>, target: &Vec<u64>) -> (calls: Vec<NativeCall>)
    requires
        old(native)@.no_duplicates(),
        target@.no_duplicates(),
    ensures
        final(native)@ == target@,
        calls@ == calls_for(old(native)@, target@),
        reconciles(old(native)@, target@, calls@),
{
    let ghost before = native@;
    let ghost mut seen: int = 0;
    let mut calls: Vec<NativeCall> = Vec::new();
    let mut i: usize = 0;
    assert(before.take(0) =~= Seq::empty());
    assert(native@ =~= kept(before.take(0), target@) + before.skip(0));
    while i < native.len()
        invariant
            0 <= seen <= before.len(),
            kept(before.take(seen), target@).len() == i,
            native@ == kept(before.take(seen), target@) + before.skip(seen),
            calls@ == detaches(before.take(seen), target@),
            before.no_duplicates(),
            target@.no_duplicates(),
            native@.no_duplicates(),
            i <= native.len(),
            replay(before, calls@) == native@,
            forall|k: int| 0 <= k < i ==> target@.contains(#[trigger] native[k]),
            forall|x: u64| native@.contains(x) ==> before.contains(x),
            forall|x: u64| before.contains(x) && target@.contains(x) ==> native@.contains(x),
            forall|k: int|
                0 <= k < calls.len() ==> call_is_owed(before, target@, #[trigger] calls[k]),
            forall|c: u64|
                before.contains(c) && !target@.contains(c) && !native@.contains(c)
                    ==> calls@.contains((NativeCall::Detach { child: c })),
            before == target@ ==> calls.len() == 0 && native@ == before,
        decreases native.len() - i,
    {
        let child: u64 = native[i];
        let ghost shown = native@;
        let ghost made = calls@;
        assert(shown.contains(child));
        proof {
            assert(child == before[seen]);
            assert(before.take(seen + 1).drop_last() =~= before.take(seen));
            assert(before.take(seen + 1).last() == child);
        }
        if find(target, child).is_none() {
            proof {
                lemma_index_of_unique(shown, i as int);
                lemma_remove_facts(shown, i as int);
                lemma_replay_push(before, made, NativeCall::Detach { child });
            }
            let _ = native.remove(i);
            calls.push(NativeCall::Detach { child });
            proof {
                assert(native@ =~= kept(before.take(seen + 1), target@) + before.skip(seen + 1));
                seen = seen + 1;
                assert(calls@.last() == (NativeCall::Detach { child }));
                assert forall|c: u64|
                    before.contains(c) && !target@.contains(c) && !native@.contains(
                        c,
                    ) implies calls@.contains((NativeCall::Detach { child: c })) by {
                    if c == child {
                        assert(calls@[calls.len() - 1] == (NativeCall::Detach { child: c }));
                    } else {
                        assert(made.contains((NativeCall::Detach { child: c })));
                        let w = made.index_of((NativeCall::Detach { child: c }));
                        assert(calls@[w] == (NativeCall::Detach { child: c }));
                    }
                }
                assert(before != target@) by {
                    if before == target@ {
                        assert(before.contains(child));
                    }
                }
            }
        } else {
            proof {
                assert(native@ =~= kept(before.take(seen + 1), target@) + before.skip(seen + 1));
                seen = seen + 1;
            }
            i += 1;
        }
    }
    assert(forall|x: u64| native@.contains(x) ==> target@.contains(x));
    proof {
        assert(before.take(seen) =~= before);
        assert(native@ =~= kept(before, target@));
    }
    let mut p: usize = 0;
    while p < target.len()
        invariant
            native@ == placed(before, target@, p as int),
            calls@ == detaches(before, target@) + placements(before, target@, p as int),
            before.no_duplicates(),
            target@.no_duplicates(),
            native@.no_duplicates(),
            p <= target.len(),
            p <= native.len(),
            replay(before, calls@) == native@,
            forall|k: int| 0 <= k < p ==> native[k] == target[k],
            forall|x: u64| native@.contains(x) ==> target@.contains(x),
            forall|k: int| p <= k < native.len() ==> before.contains(#[trigger] native[k]),
            forall|x: u64| before.contains(x) && target@.contains(x) ==> native@.contains(x),
            forall|k: int|
                0 <= k < calls.len() ==> call_is_owed(before, target@, #[trigger] calls[k]),
            forall|c: u64|
                before.contains(c) && !target@.contains(c) ==> calls@.contains(
                    (NativeCall::Detach { child: c }),
                ),
            forall|k: int|
                0 <= k < p && !before.contains(#[trigger] target[k]) ==> calls@.contains(
                    (NativeCall::Attach { child: target[k], position: k as usize }),
                ),
            before == target@ ==> calls.len() == 0 && native@ == before,
        decreases target.len() - p,
    {
        let child: u64 = target[p];
        let ghost shown = native@;
        let ghost made = calls@;
        assert(target@.contains(child));
        match find(native, child) {
            None => {
                proof {
                    lemma_insert_facts(shown, p as int, child);
                    lemma_replay_push(before, made, NativeCall::Attach { child, position: p });
                }
                native.insert(p, child);
                calls.push(NativeCall::Attach { child, position: p });
                proof {
                    assert(calls@ =~= detaches(before, target@) + placements(
                        before,
                        target@,
                        p + 1,
                    ));
                    assert(before != target@) by {
                        if before == target@ {
                            assert(shown == target@);
                        }
                    }
                    assert(calls@[calls.len() - 1] == (NativeCall::Attach { child, position: p }));
                    assert forall|k: int| p + 1 <= k < native.len() implies before.contains(
                        #[trigger] native[k],
                    ) by {
                        assert(native[k] == shown[k - 1]);
                    }
                }
            },
            Some(q) => {
                proof {
                    lemma_index_of_unique(shown, q as int);
                    if q < p {
                        assert(shown[q as int] == target[q as int]);
                    }
                    if q == p {
                        assert(shown.remove(q as int).insert(p as int, child) =~= shown);
                    }
                }
                if q != p {
                    proof {
                        lemma_remove_facts(shown, q as int);
                        lemma_insert_facts(shown.remove(q as int), p as int, child);
                        lemma_replay_push(before, made, NativeCall::Reorder { child, position: p });
                    }
                    let _ = native.remove(q);
                    native.insert(p, child);
                    calls.push(NativeCall::Reorder { child, position: p });
                    proof {
                        let mid = shown.remove(q as int);
                        assert(native@ == mid.insert(p as int, child));
                        assert(calls@ =~= detaches(before, target@) + placements(
                            before,
                            target@,
                            p + 1,
                        ));
                        assert(before != target@) by {
                            if before == target@ {
                                assert(shown == target@);
                                assert(shown[p as int] == child);
                            }
                        }
                        assert forall|k: int| p + 1 <= k < native.len() implies before.contains(
                            #[trigger] native[k],
                        ) by {
                            assert(native[k] == mid[k - 1]);
                            if k - 1 < q {
                                assert(mid[k - 1] == shown[k - 1]);
                            } else {
                                assert(mid[k - 1] == shown[k]);
                            }
                        }
                        assert forall|x: u64| native@.contains(x) implies target@.contains(x) by {
                            if x != child {
                                assert(mid.contains(x));
                                assert(shown.contains(x));
                            }
                        }
                        assert forall|x: u64|
                            before.contains(x) && target@.contains(x) implies native@.contains(
                            x,
                        ) by {
                            if x != child {
                                assert(shown.contains(x));
                                assert(mid.contains(x));
                            }
                        }
                    }
                }
            },
        }
        proof {
            assert forall|c: u64|
                before.contains(c) && !target@.contains(c) implies calls@.contains(
                (NativeCall::Detach { child: c }),
            ) by {
                let w = made.index_of((NativeCall::Detach { child: c }));
                assert(made.contains((NativeCall::Detach { child: c })));
                assert(calls@[w] == (NativeCall::Detach { child: c }));
            }
            assert forall|k: int|
                0 <= k < p + 1 && !before.contains(#[trigger] target[k]) implies calls@.contains(
                (NativeCall::Attach { child: target[k], position: k as usize }),
            ) by {
                if k < p {
                    let call = NativeCall::Attach { child: target[k], position: k as usize };
                    assert(made.contains(call));
                    let w = made.index_of(call);
                    assert(calls@[w] == call);
                } else {
                    assert(calls@[calls.len() - 1] == (NativeCall::Attach {
                        child: target[k],
                        position: k as usize,
                    }));
                }
            }
        }
        p += 1;
    }
    proof {
        if native.len() > target.len() {
            let extra = native[target.len() as int];
            assert(native@.contains(extra));
            assert(target@.contains(extra));
            let j = target@.index_of(extra);
            assert(native[j] == extra);
        }
        assert(native@ =~= target@);
    }
    calls
}

} // verus!
