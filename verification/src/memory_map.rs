//! The memory map: the order in which the segments are placed, the linear
//! address of each, and the address of each group.

use crate::group::{Group, GroupView};
use crate::linker_error::LinkerError;
use crate::linkstate::{LinkState, LinkStateView};
use crate::omf_vec::OmfVec;
use crate::segment::Segment;
use crate::seq_search::{first_index, lemma_first_index, lemma_injective_bound};
use vstd::prelude::*;

verus! {

/// The class of segment `i` (counted from 1).
pub open spec fn class_of(segments: Seq<Segment>, i: int) -> usize {
    segments[i - 1].name.classidx
}

/// The segment that decides where segment `i` is placed: the first segment
/// of its class, or the segment itself where it has no class.
pub open spec fn leader(segments: Seq<Segment>, i: int) -> int {
    if class_of(segments, i) == 0 {
        i
    } else {
        first_index(segments, |s: Segment| s.name.classidx == class_of(segments, i))
    }
}

/// Whether segment `a` is placed before segment `b`: segments follow the
/// order of their leaders, and segments of one class follow each other in
/// the order of the table.
pub open spec fn placed_before(segments: Seq<Segment>, a: int, b: int) -> bool {
    leader(segments, a) < leader(segments, b) || (leader(segments, a) == leader(segments, b) && a
        < b)
}

/// Whether `order` is the placement order of `segments`: it names segments
/// of the table, each of them, and in placement order.
pub open spec fn is_placement(segments: Seq<Segment>, order: Seq<usize>) -> bool {
    &&& forall|t: int| 0 <= t < order.len() ==> 0 < #[trigger] order[t] <= segments.len()
    &&& forall|t: int, u: int|
        0 <= t < u < order.len() ==> placed_before(segments, order[t] as int, order[u] as int)
    &&& forall|i: usize| 0 < i <= segments.len() ==> #[trigger] order.contains(i)
}

/// A placement order names each segment exactly once.
pub proof fn lemma_placement_is_permutation(segments: Seq<Segment>, order: Seq<usize>)
    requires
        is_placement(segments, order),
        segments.len() <= usize::MAX,
    ensures
        order.no_duplicates(),
        order.len() == segments.len(),
{
    assert forall|t: int, u: int| 0 <= t < order.len() && 0 <= u < order.len() && t
        != u implies order[t] != order[u] by {
        if t < u {
            assert(placed_before(segments, order[t] as int, order[u] as int));
        } else {
            assert(placed_before(segments, order[u] as int, order[t] as int));
        }
    }
    // As many different segments as the order has members, ...
    let member = |t: int| order[t] - 1;
    assert forall|t: int| 0 <= t < order.len() implies 0 <= #[trigger] member(t)
        < segments.len() by {
        assert(0 < order[t] <= segments.len());
    }
    lemma_injective_bound(member, order.len() as int, segments.len() as int);
    // ... and as many different members as there are segments.
    let place = |i: int| order.index_of((i + 1) as usize);
    assert forall|i: int| 0 <= i < segments.len() implies 0 <= #[trigger] place(i)
        < order.len() && order[place(i)] == i + 1 by {
        assert(order.contains((i + 1) as usize));
    }
    assert forall|i: int, j: int| 0 <= i < j < segments.len() implies #[trigger] place(i)
        != #[trigger] place(j) by {
        assert(order[place(i)] == i + 1 && order[place(j)] == j + 1);
    }
    lemma_injective_bound(place, segments.len() as int, order.len() as int);
}

/// The first free address once the first `t` segments of `order` are
/// placed: each segment starts at the next address that its alignment
/// admits, and takes up its length.
pub open spec fn extent(segments: Seq<Segment>, order: Seq<usize>, t: int) -> int
    decreases t, 1int,
{
    if t <= 0 {
        0
    } else {
        base_at(segments, order, t - 1) + segments[order[t - 1] - 1].length
    }
}

/// The address at which the segment at position `t` of `order` is placed.
pub open spec fn base_at(segments: Seq<Segment>, order: Seq<usize>, t: int) -> int
    decreases t, 2int,
{
    if t < 0 {
        0
    } else {
        segments[order[t] - 1].align.align_up(extent(segments, order, t))
    }
}

/// Whether every member of a group names a segment of the table.
pub open spec fn members_ok(segments: Seq<Segment>, members: Seq<usize>) -> bool {
    forall|k: int| 0 <= k < members.len() ==> 0 < #[trigger] members[k] <= segments.len()
}

/// Whether `base` is the least address of the member segments.
pub open spec fn is_least_base(segments: Seq<Segment>, members: Seq<usize>, base: usize) -> bool {
    &&& exists|k: int| 0 <= k < members.len() && segments[#[trigger] members[k] - 1].base == base
    &&& forall|k: int| 0 <= k < members.len() ==> base <= segments[#[trigger] members[k] - 1].base
}

/// Whether the memory map can be built: the image fits into the address
/// space of the machine, and the groups name segments of the table.
pub open spec fn mappable(st: LinkStateView, order: Seq<usize>) -> bool {
    &&& extent(st.segments, order, order.len() as int) <= usize::MAX
    &&& forall|g: int|
        0 <= g < st.groups.len() ==> members_ok(st.segments, #[trigger] st.groups[g].members)
}

proof fn lemma_leader(segments: Seq<Segment>, i: int)
    requires
        0 < i <= segments.len(),
    ensures
        0 < leader(segments, i) <= i,
        class_of(segments, leader(segments, i)) == class_of(segments, i),
        forall|j: int|
            0 < j <= segments.len() && class_of(segments, j) == class_of(segments, i) && class_of(
                segments,
                i,
            ) != 0 ==> leader(segments, j) == leader(segments, i),
{
    let class = class_of(segments, i);
    if class != 0 {
        let pred = |s: Segment| s.name.classidx == class;
        lemma_first_index(segments, pred);
        assert(pred(segments[i - 1]));
        if first_index(segments, pred) > i {
            assert(!pred(segments[i - 1]));
        }
    }
}

proof fn lemma_extent_monotonic(segments: Seq<Segment>, order: Seq<usize>, t: int, u: int)
    requires
        0 <= t <= u,
    ensures
        extent(segments, order, t) <= extent(segments, order, u),
        0 <= extent(segments, order, t),
    decreases u,
{
    if u > 0 {
        lemma_extent_monotonic(segments, order, 0, u - 1);
        crate::segment::lemma_align_up(
            segments[order[u - 1] - 1].align,
            extent(segments, order, u - 1),
        );
        if t < u {
            lemma_extent_monotonic(segments, order, t, u - 1);
        }
    }
}

proof fn lemma_push_contains(s: Seq<usize>, x: usize)
    ensures
        forall|y: usize| #[trigger] s.push(x).contains(y) <==> s.contains(y) || y == x,
{
    assert forall|y: usize| #[trigger] s.push(x).contains(y) <==> s.contains(y) || y == x by {
        if s.push(x).contains(y) {
            let i = choose|i: int| 0 <= i < s.push(x).len() && s.push(x)[i] == y;
            if i < s.len() {
                assert(s[i] == y);
            }
        }
        if s.contains(y) {
            let i = choose|i: int| 0 <= i < s.len() && s[i] == y;
            assert(s.push(x)[i] == y);
        }
        if y == x {
            assert(s.push(x)[s.len() as int] == y);
        }
    }
}

/// No segment is led by a segment that another one leads.
proof fn lemma_led_by(segments: Seq<Segment>, j: int, l: int)
    requires
        0 < j <= segments.len(),
        0 < l <= segments.len(),
        leader(segments, j) == l,
    ensures
        leader(segments, l) == l,
        class_of(segments, j) == class_of(segments, l),
        class_of(segments, l) == 0 ==> j == l,
{
    lemma_leader(segments, j);
    lemma_leader(segments, l);
}

/// Whether segment `j` is placed once the segments led by the first `k`
/// segments are, and of those led by segment `k + 1` the first `m`.
spec fn placed_by(segments: Seq<Segment>, j: int, k: int, m: int) -> bool {
    leader(segments, j) <= k || (leader(segments, j) == k + 1 && j <= m)
}

/// Computes the order in which the segments are placed: in the order of the
/// table, but with every segment that has a class followed at once by the
/// other segments of its class.
pub fn placement_order(segments: &OmfVec<Segment>) -> (order: Vec<usize>)
    ensures
        is_placement(segments@, order@),
{
    let n = segments.len();
    let ghost segs = segments@;
    let mut order: Vec<usize> = Vec::new();
    let mut placed: Vec<bool> = Vec::new();
    let mut i: usize = 0;
    while i < n
        invariant
            i <= n,
            placed@.len() == i,
            forall|j: int| 0 <= j < i ==> !placed@[j],
        decreases n - i,
    {
        placed.push(false);
        i += 1;
    }
    proof {
        assert forall|j: int| 0 < j <= n implies leader(segs, j) > 0 by {
            lemma_leader(segs, j);
        }
    }
    let mut k: usize = 0;
    while k < n
        invariant
            n == segs.len(),
            segs == segments@,
            placed@.len() == n,
            k <= n,
            forall|t: int|
                0 <= t < order@.len() ==> 0 < #[trigger] order@[t] <= n && leader(
                    segs,
                    order@[t] as int,
                ) <= k,
            forall|t: int, u: int|
                0 <= t < u < order@.len() ==> placed_before(
                    segs,
                    order@[t] as int,
                    order@[u] as int,
                ),
            forall|j: int| 0 < j <= n ==> (#[trigger] placed@[j - 1] <==> leader(segs, j) <= k),
            forall|j: usize|
                0 < j <= n && leader(segs, j as int) <= k ==> #[trigger] order@.contains(j),
        decreases n - k,
    {
        proof {
            lemma_leader(segs, k + 1);
        }
        if !placed[k] {
            let class = segments.get(k + 1).name.classidx;
            assert(leader(segs, k + 1) == k + 1);
            if class == 0 {
                // Classless segments are placed in their order of appearance.
                proof {
                    lemma_push_contains(order@, (k + 1) as usize);
                }
                order.push(k + 1);
                placed.set(k, true);
                proof {
                    assert forall|j: int| 0 < j <= n implies (#[trigger] placed@[j - 1] <==> leader(
                        segs,
                        j,
                    ) <= k + 1) by {
                        if leader(segs, j) == k + 1 {
                            lemma_led_by(segs, j, k + 1);
                        }
                    }
                    assert forall|j: usize|
                        0 < j <= n && leader(segs, j as int) <= k + 1 implies #[trigger] order@.contains(
                        j,
                    ) by {
                        if leader(segs, j as int) == k + 1 {
                            lemma_led_by(segs, j as int, k + 1);
                        }
                    }
                }
            } else {
                // A segment with a class is placed with all of the other
                // segments of the class following.
                let mut m: usize = 0;
                while m < n
                    invariant
                        n == segs.len(),
                        segs == segments@,
                        placed@.len() == n,
                        k < n,
                        m <= n,
                        class == class_of(segs, k + 1),
                        class != 0,
                        leader(segs, k + 1) == k + 1,
                        forall|t: int|
                            0 <= t < order@.len() ==> 0 < #[trigger] order@[t] <= n && placed_by(
                                segs,
                                order@[t] as int,
                                k as int,
                                m as int,
                            ),
                        forall|t: int, u: int|
                            0 <= t < u < order@.len() ==> placed_before(
                                segs,
                                order@[t] as int,
                                order@[u] as int,
                            ),
                        forall|j: int|
                            0 < j <= n ==> (#[trigger] placed@[j - 1] <==> placed_by(
                                segs,
                                j,
                                k as int,
                                m as int,
                            )),
                        forall|j: usize|
                            0 < j <= n && placed_by(segs, j as int, k as int, m as int)
                                ==> #[trigger] order@.contains(j),
                    decreases n - m,
                {
                    proof {
                        lemma_leader(segs, m + 1);
                        lemma_leader(segs, k + 1);
                        if leader(segs, m + 1) == k + 1 {
                            lemma_led_by(segs, m + 1, k + 1);
                        }
                    }
                    if segments.get(m + 1).name.classidx == class {
                        proof {
                            lemma_push_contains(order@, (m + 1) as usize);
                            assert(leader(segs, m + 1) == k + 1);
                        }
                        order.push(m + 1);
                        placed.set(m, true);
                    } else {
                        assert(leader(segs, m + 1) != k + 1);
                    }
                    m += 1;
                }
                proof {
                    assert forall|j: int| 0 < j <= n implies (placed_by(segs, j, k as int, n as int)
                        <==> leader(segs, j) <= k + 1) by {}
                }
            }
        } else {
            proof {
                assert forall|j: int| 0 < j <= n && leader(segs, j) == k + 1 implies false by {
                    lemma_led_by(segs, j, k + 1);
                }
            }
        }
        k += 1;
    }
    proof {
        assert forall|i: usize| 0 < i <= segs.len() implies #[trigger] order@.contains(i) by {
            lemma_leader(segs, i as int);
        }
    }
    order
}

/// Whether `after` is `before` with the address `base`.
pub open spec fn rebased(before: Segment, after: Segment, base: int) -> bool {
    after == (Segment { base: base as usize, ..before }) && base == base as usize
}

/// Whether the segments `after` are the segments `before`, each placed at
/// its address in the order `order`.
pub open spec fn is_layout(before: Seq<Segment>, after: Seq<Segment>, order: Seq<usize>) -> bool {
    &&& after.len() == before.len()
    &&& forall|t: int|
        0 <= t < order.len() ==> rebased(
            before[#[trigger] order[t] - 1],
            after[order[t] - 1],
            base_at(before, order, t),
        )
}

/// Assigns linear addresses to the segments in placement order.
fn assign_bases(segments: &mut OmfVec<Segment>, order: &Vec<usize>) -> (r: Result<(), LinkerError>)
    requires
        is_placement(old(segments)@, order@),
        forall|i: int| 0 <= i < old(segments)@.len() ==> (#[trigger] old(segments)@[i]).wf(),
    ensures
        final(segments)@.len() == old(segments)@.len(),
        forall|i: int| 0 <= i < final(segments)@.len() ==> (#[trigger] final(segments)@[i]).wf(),
        match r {
            Ok(_) => extent(old(segments)@, order@, order@.len() as int) <= usize::MAX && is_layout(
                old(segments)@,
                final(segments)@,
                order@,
            ),
            Err(_) => extent(old(segments)@, order@, order@.len() as int) > usize::MAX,
        },
{
    let ghost before = segments@;
    let count = order.len();
    let mut next_base: usize = 0;
    let mut t: usize = 0;
    while t < count
        invariant
            count == order@.len(),
            t <= count,
            before == old(segments)@,
            is_placement(before, order@),
            segments@.len() == before.len(),
            forall|i: int| 0 <= i < segments@.len() ==> (#[trigger] segments@[i]).wf(),
            next_base == extent(before, order@, t as int),
            forall|u: int|
                0 <= u < t ==> rebased(
                    before[#[trigger] order@[u] - 1],
                    segments@[order@[u] - 1],
                    base_at(before, order@, u),
                ),
            forall|u: int|
                t <= u < count ==> segments@[#[trigger] order@[u] - 1] == before[order@[u] - 1],
        decreases count - t,
    {
        let index = order[t];
        let mut seg = *segments.get(index);
        proof {
            lemma_extent_monotonic(before, order@, t as int + 1, count as int);
            lemma_extent_monotonic(before, order@, 0, t as int);
            crate::segment::lemma_align_up(seg.align, next_base as int);
            assert(forall|u: int|
                0 <= u < count && u != t ==> #[trigger] order@[u] != index) by {
                assert forall|u: int| 0 <= u < count && u != t implies #[trigger] order@[u]
                    != index by {
                    if u < t {
                        assert(placed_before(before, order@[u] as int, order@[t as int] as int));
                    } else {
                        assert(placed_before(before, order@[t as int] as int, order@[u] as int));
                    }
                }
            }
        }
        let base = match seg.align.checked_align_by(next_base) {
            Some(base) => base,
            None => {
                return Err(LinkerError::new("the image does not fit into the address space"));
            },
        };
        seg.base = base;
        next_base = match base.checked_add(seg.length) {
            Some(next) => next,
            None => {
                return Err(LinkerError::new("the image does not fit into the address space"));
            },
        };
        segments.set(index, seg);
        t += 1;
    }
    Ok(())
}

/// What holds of a group once its address is assigned: nothing but the
/// address has changed, and the address is the least address of the member
/// segments, where there are any.
pub open spec fn group_placed(segments: Seq<Segment>, before: GroupView, after: GroupView) -> bool {
    &&& after == (GroupView { base: after.base, ..before })
    &&& if before.members.len() == 0 {
        after.base == before.base
    } else {
        is_least_base(segments, before.members, after.base)
    }
}

/// Whether every group names segments of the table only.
fn groups_valid(groups: &OmfVec<Group>, segments: &OmfVec<Segment>) -> (b: bool)
    ensures
        b <==> forall|g: int|
            0 <= g < groups@.len() ==> members_ok(segments@, (#[trigger] groups@[g]).members@),
{
    let count = groups.len();
    let mut g: usize = 0;
    while g < count
        invariant
            g <= count,
            count == groups@.len(),
            forall|h: int| 0 <= h < g ==> members_ok(segments@, (#[trigger] groups@[h]).members@),
        decreases count - g,
    {
        let group = groups.get(g + 1);
        let mut k: usize = 0;
        while k < group.members.len()
            invariant
                k <= group.members@.len(),
                group == groups@[g as int],
                g < groups@.len(),
                forall|j: int| 0 <= j < k ==> 0 < #[trigger] group.members@[j] <= segments@.len(),
            decreases group.members@.len() - k,
        {
            if !segments.is_valid_index(group.members[k]) {
                assert(!members_ok(segments@, groups@[g as int].members@));
                return false;
            }
            k += 1;
        }
        g += 1;
    }
    true
}

/// The least address of the member segments of a group, if it has members.
fn least_base(segments: &OmfVec<Segment>, group: &Group) -> (r: Option<usize>)
    requires
        members_ok(segments@, group.members@),
    ensures
        match r {
            Some(base) => group.members@.len() > 0 && is_least_base(
                segments@,
                group.members@,
                base,
            ),
            None => group.members@.len() == 0,
        },
{
    let mut best: Option<usize> = None;
    let mut k: usize = 0;
    while k < group.members.len()
        invariant
            k <= group.members@.len(),
            members_ok(segments@, group.members@),
            match best {
                Some(base) => k > 0 && (exists|j: int|
                    0 <= j < k && segments@[#[trigger] group.members@[j] - 1].base == base)
                    && forall|j: int|
                    0 <= j < k ==> base <= segments@[#[trigger] group.members@[j] - 1].base,
                None => k == 0,
            },
        decreases group.members@.len() - k,
    {
        let member = group.members[k];
        let base = segments.get(member).base;
        best = match best {
            Some(least) if least <= base => Some(least),
            _ => Some(base),
        };
        k += 1;
    }
    best
}

/// Assigns to each group the least address of its member segments.
fn assign_group_bases(groups: &mut OmfVec<Group>, segments: &OmfVec<Segment>)
    requires
        forall|g: int|
            0 <= g < old(groups)@.len() ==> members_ok(
                segments@,
                (#[trigger] old(groups)@[g]).members@,
            ),
    ensures
        final(groups)@.len() == old(groups)@.len(),
        forall|g: int|
            0 <= g < old(groups)@.len() ==> group_placed(
                segments@,
                (#[trigger] old(groups)@[g])@,
                final(groups)@[g]@,
            ),
{
    let count = groups.len();
    let mut g: usize = 0;
    while g < count
        invariant
            g <= count,
            count == old(groups)@.len(),
            groups@.len() == count,
            forall|h: int|
                0 <= h < count ==> members_ok(segments@, (#[trigger] old(groups)@[h]).members@),
            forall|h: int|
                0 <= h < g ==> group_placed(
                    segments@,
                    (#[trigger] old(groups)@[h])@,
                    groups@[h]@,
                ),
            forall|h: int| g <= h < count ==> #[trigger] groups@[h] == old(groups)@[h],
        decreases count - g,
    {
        match least_base(segments, groups.get(g + 1)) {
            Some(base) => {
                groups.get_mut(g + 1).base = base;
            },
            None => {},
        }
        g += 1;
    }
}

/// A copy of the segments.
fn copy_of(segments: &OmfVec<Segment>) -> (copy: OmfVec<Segment>)
    ensures
        copy@ == segments@,
{
    let mut copy: OmfVec<Segment> = OmfVec::new();
    let count = segments.len();
    let mut i: usize = 0;
    while i < count
        invariant
            i <= count,
            count == segments@.len(),
            copy@ == segments@.take(i as int),
        decreases count - i,
    {
        copy.push(*segments.get(i + 1));
        i += 1;
        assert(segments@.take(i as int) =~= segments@.take(i - 1).push(segments@[i - 1]));
    }
    assert(segments@.take(count as int) =~= segments@);
    copy
}

/// Whether `after` is `before` with its memory map built: the segments are
/// in placement order, each at its address, each group is at the least
/// address of its members, and nothing else has changed.
pub open spec fn memory_mapped(before: LinkStateView, after: LinkStateView) -> bool {
    &&& is_placement(before.segments, after.segment_order)
    &&& mappable(before, after.segment_order)
    &&& is_layout(before.segments, after.segments, after.segment_order)
    &&& after.groups.len() == before.groups.len()
    &&& forall|g: int|
        0 <= g < before.groups.len() ==> group_placed(
            after.segments,
            #[trigger] before.groups[g],
            after.groups[g],
        )
    &&& after.lnames == before.lnames
    &&& after.symbols == before.symbols
    &&& after.entry == before.entry
    &&& after.warnings == before.warnings
    &&& after.unresolved == before.unresolved
}

/// Once all object modules have been added, builds the run-time memory map
/// by placing all segments in proper order and at proper alignment, and all
/// groups at their first segment. It fails where the image does not fit
/// into the address space of the machine or a group names a segment that
/// does not exist; nothing but the placement order has changed then.
pub fn pass1_build_memory_map(state: &mut LinkState) -> (r: Result<(), LinkerError>)
    requires
        old(state).wf(),
    ensures
        final(state).wf(),
        is_placement(old(state)@.segments, final(state)@.segment_order),
        match r {
            Ok(_) => memory_mapped(old(state)@, final(state)@),
            Err(_) => !mappable(old(state)@, final(state)@.segment_order) && final(state)@ == (
                LinkStateView { segment_order: final(state)@.segment_order, ..old(state)@ }),
        },
{
    let order = placement_order(&state.segments);
    let ghost before = state@;
    let mut placed = copy_of(&state.segments);
    let laid = assign_bases(&mut placed, &order);
    state.segment_order = order;
    match laid {
        Err(err) => {
            return Err(err);
        },
        Ok(_) => {},
    }
    if !groups_valid(&state.groups, &placed) {
        proof {
            let g = choose|g: int|
                0 <= g < state.groups@.len() && !members_ok(
                    placed@,
                    (#[trigger] state.groups@[g]).members@,
                );
            assert(before.groups[g].members == state.groups@[g].members@);
            assert(!members_ok(before.segments, before.groups[g].members));
        }
        return Err(LinkerError::new("a group names a segment that does not exist"));
    }
    state.segments = placed;
    let ghost groups = state.groups@;
    assign_group_bases(&mut state.groups, &state.segments);
    proof {
        assert forall|g: int| 0 <= g < before.groups.len() implies members_ok(
            before.segments,
            (#[trigger] before.groups[g]).members,
        ) by {
            assert(members_ok(state.segments@, groups[g].members@));
        }
        assert forall|g: int| 0 <= g < before.groups.len() implies group_placed(
            state@.segments,
            #[trigger] before.groups[g],
            state@.groups[g],
        ) by {
            assert(group_placed(state.segments@, groups[g]@, state.groups@[g]@));
        }
    }
    Ok(())
}

/// In a memory map every segment but the first starts at the first address
/// after its predecessor that its alignment admits, and the first segment
/// starts at 0.
pub proof fn lemma_adjacent_segments(
    before: Seq<Segment>,
    after: Seq<Segment>,
    order: Seq<usize>,
    t: int,
)
    requires
        is_placement(before, order),
        is_layout(before, after, order),
        0 <= t < order.len(),
    ensures
        t == 0 ==> after[order[0] - 1].base == 0,
        t > 0 ==> after[order[t] - 1].base == after[order[t] - 1].align.align_up(
            after[order[t - 1] - 1].base + after[order[t - 1] - 1].length,
        ),
{
    if t > 0 {
        assert(rebased(
            before[order[t - 1] - 1],
            after[order[t - 1] - 1],
            base_at(before, order, t - 1),
        ));
    }
    assert(rebased(before[order[t] - 1], after[order[t] - 1], base_at(before, order, t)));
    if t == 0 {
        let align = before[order[0] - 1].align;
        assert(extent(before, order, 0) == 0);
        assert(base_at(before, order, 0) == align.align_up(0));
        assert(align.unit() >= 1 && (align.unit() - 1) / align.unit() == 0) by {
            match align {
                crate::segment::Align::Absolute => {},
                crate::segment::Align::Byte => {},
                crate::segment::Align::Word => {},
                crate::segment::Align::Dword => {},
                crate::segment::Align::Para => {},
                crate::segment::Align::Page => {},
            }
        }
        assert(align.align_up(0) == 0);
    }
}

} // verus!
