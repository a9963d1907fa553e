use vstd::prelude::*;
use crate::models::{CertificateInfo, CertificateNode, CertificateTree, ValidationStatus, ValidityStatus};
use crate::validity::{current_timestamp, expiry_of, validity_at};

verus! {

broadcast use vstd::std_specs::vec::group_vec_axioms, vstd::seq::group_seq_axioms;

// ---------------------------------------------------------------------------
// Identity of records by subject
// ---------------------------------------------------------------------------

/// Some record of `certs` has the subject `s`.
pub open spec fn has_subject(certs: Seq<CertificateInfo>, s: Seq<char>) -> bool {
    exists|j: int| 0 <= j < certs.len() && #[trigger] certs[j].subject@ == s
}

/// The set of distinct subjects among the records.
pub open spec fn distinct_subjects(certs: Seq<CertificateInfo>) -> Set<Seq<char>> {
    certs.map_values(|c: CertificateInfo| c.subject@).to_set()
}

/// The record at `i` starts a tree in the first pass: its issuer is no
/// subject of the input, or it names itself as its issuer.
pub open spec fn is_root_candidate(certs: Seq<CertificateInfo>, i: int) -> bool {
    !has_subject(certs, certs[i].issuer@) || certs[i].subject@ == certs[i].issuer@
}

/// The last index below `end` whose record has the subject `s`, or -1.
pub open spec fn last_with_subject(certs: Seq<CertificateInfo>, s: Seq<char>, end: int) -> int
    decreases end,
{
    if end <= 0 {
        -1
    } else if certs[end - 1].subject@ == s {
        end - 1
    } else {
        last_with_subject(certs, s, end - 1)
    }
}

/// The record that stands for the subject `s` when it is reached as a
/// child: the last one in input order with that subject.
pub open spec fn record_for(certs: Seq<CertificateInfo>, s: Seq<char>) -> int {
    last_with_subject(certs, s, certs.len() as int)
}

// ---------------------------------------------------------------------------
// Shape of a forest
// ---------------------------------------------------------------------------

/// The subjects of all the nodes of a tree.
pub open spec fn node_subjects(node: CertificateNode) -> Set<Seq<char>>
    decreases node,
{
    set![node.cert.subject@].union(forest_subjects(node.children@))
}

/// The subjects of all the nodes of a sequence of trees.
pub open spec fn forest_subjects(nodes: Seq<CertificateNode>) -> Set<Seq<char>>
    decreases nodes,
{
    if nodes.len() == 0 {
        Set::empty()
    } else {
        node_subjects(nodes[0]).union(forest_subjects(nodes.drop_first()))
    }
}

/// The number of nodes of a tree.
pub open spec fn node_size(node: CertificateNode) -> nat
    decreases node,
{
    1 + forest_size(node.children@)
}

/// The number of nodes of a sequence of trees.
pub open spec fn forest_size(nodes: Seq<CertificateNode>) -> nat
    decreases nodes,
{
    if nodes.len() == 0 {
        0
    } else {
        node_size(nodes[0]) + forest_size(nodes.drop_first())
    }
}

// ---------------------------------------------------------------------------
// Assembly
// ---------------------------------------------------------------------------

/// `node` is the tree that materialising the record at `k` yields when the
/// subjects in `done` are already placed and the time is `now`: it holds a
/// copy of that record and its validity class, and its children are grown
/// from the records that name the record's subject as their issuer.
pub open spec fn grown_node(
    certs: Seq<CertificateInfo>,
    now: i64,
    k: int,
    done: Set<Seq<char>>,
    node: CertificateNode,
) -> bool
    decreases node,
{
    &&& node.cert@ == certs[k]@
    &&& node.validity_status == validity_at(expiry_of(certs[k].not_after@), now)
    &&& grown_children(certs, now, certs[k].subject@, 0, done.insert(certs[k].subject@), node.children@)
}

/// `kids` are the children grown under the subject `parent` from the records
/// at `j` onwards, in input order: each record that names `parent` as its
/// issuer and whose subject is not yet placed gives one child, built from
/// the record that stands for that subject.
pub open spec fn grown_children(
    certs: Seq<CertificateInfo>,
    now: i64,
    parent: Seq<char>,
    j: int,
    done: Set<Seq<char>>,
    kids: Seq<CertificateNode>,
) -> bool
    decreases kids, certs.len() - j,
{
    if j >= certs.len() {
        kids.len() == 0
    } else if certs[j].issuer@ != parent || done.contains(certs[j].subject@) {
        grown_children(certs, now, parent, j + 1, done, kids)
    } else {
        &&& kids.len() > 0
        &&& grown_node(certs, now, record_for(certs, certs[j].subject@), done, kids[0])
        &&& grown_children(
            certs,
            now,
            parent,
            j + 1,
            done.union(node_subjects(kids[0])),
            kids.drop_first(),
        )
    }
}

/// The input index that step `step` of the two root passes looks at: the
/// first pass takes steps below `certs.len()`, the orphan sweep the rest.
pub open spec fn step_index(certs: Seq<CertificateInfo>, step: int) -> int {
    if step < certs.len() {
        step
    } else {
        step - certs.len()
    }
}

/// `roots` are the trees that the root passes start from step `step` on.
/// In the first pass a record starts a tree where it is a root candidate;
/// in the sweep, any record does. Either way only while its subject is not
/// yet placed, and the tree is grown from that record itself.
pub open spec fn grown_roots(
    certs: Seq<CertificateInfo>,
    now: i64,
    step: int,
    done: Set<Seq<char>>,
    roots: Seq<CertificateNode>,
) -> bool
    decreases roots, 2 * certs.len() - step,
{
    if step >= 2 * certs.len() {
        roots.len() == 0
    } else if (step < certs.len() && !is_root_candidate(certs, step))
        || done.contains(certs[step_index(certs, step)].subject@) {
        grown_roots(certs, now, step + 1, done, roots)
    } else {
        &&& roots.len() > 0
        &&& grown_node(certs, now, step_index(certs, step), done, roots[0])
        &&& grown_roots(
            certs,
            now,
            step + 1,
            done.union(node_subjects(roots[0])),
            roots.drop_first(),
        )
    }
}

/// `roots` is the forest that assembling `certs` at time `now` yields,
/// before chain validation.
pub open spec fn assembled(certs: Seq<CertificateInfo>, now: i64, roots: Seq<CertificateNode>) -> bool {
    grown_roots(certs, now, 0, Set::empty(), roots)
}

// ---------------------------------------------------------------------------
// Chain validation
// ---------------------------------------------------------------------------

/// The chain status of a certificate with this subject and issuer, under a
/// parent with subject `parent` (or at a root, `None`).
pub open spec fn expected_validation(
    subject: Seq<char>,
    issuer: Seq<char>,
    parent: Option<Seq<char>>,
) -> ValidationStatus {
    match parent {
        None => if subject == issuer {
            ValidationStatus::Valid
        } else {
            ValidationStatus::InvalidChain
        },
        Some(p) => if p == issuer {
            ValidationStatus::Valid
        } else {
            ValidationStatus::InvalidChain
        },
    }
}

/// Every node of the tree carries the chain status that its own names and
/// its parent's subject call for.
pub open spec fn validated_node(node: CertificateNode, parent: Option<Seq<char>>) -> bool
    decreases node,
{
    &&& node.validation_status == expected_validation(node.cert.subject@, node.cert.issuer@, parent)
    &&& forall|i: int|
        0 <= i < node.children.len() ==> validated_node(
            #[trigger] node.children@[i],
            Some(node.cert.subject@),
        )
}

/// Every tree of the forest is validated as a tree of roots.
pub open spec fn validated_forest(roots: Seq<CertificateNode>) -> bool {
    forall|i: int| 0 <= i < roots.len() ==> validated_node(#[trigger] roots[i], None)
}

/// The two trees agree in everything but their chain status.
pub open spec fn same_shape(a: CertificateNode, b: CertificateNode) -> bool
    decreases a,
{
    &&& a.cert@ == b.cert@
    &&& a.validity_status == b.validity_status
    &&& a.children.len() == b.children.len()
    &&& forall|i: int|
        0 <= i < a.children.len() ==> same_shape(#[trigger] a.children@[i], b.children@[i])
}

/// The two trees are identical: same records, same order, same statuses.
pub open spec fn same_tree(a: CertificateNode, b: CertificateNode) -> bool
    decreases a,
{
    &&& a.cert@ == b.cert@
    &&& a.validity_status == b.validity_status
    &&& a.validation_status == b.validation_status
    &&& a.children.len() == b.children.len()
    &&& forall|i: int|
        0 <= i < a.children.len() ==> same_tree(#[trigger] a.children@[i], b.children@[i])
}

/// The finished forest of `certs` at time `now`: assembled, then validated.
pub open spec fn built_forest(certs: Seq<CertificateInfo>, now: i64, roots: Seq<CertificateNode>) -> bool {
    assembled(certs, now, roots) && validated_forest(roots)
}

/// The subject of an optional parent record.
pub open spec fn parent_subject(parent: Option<&CertificateInfo>) -> Option<Seq<char>> {
    match parent {
        Some(p) => Some(p.subject@),
        None => None,
    }
}

fn validate_node(node: &mut CertificateNode, parent_cert: Option<&CertificateInfo>)
    ensures
        same_shape(*old(node), *final(node)),
        validated_node(*final(node), parent_subject(parent_cert)),
    decreases *old(node),
{
    let status = match parent_cert {
        Some(parent) => if parent.subject == node.cert.issuer {
            ValidationStatus::Valid
        } else {
            ValidationStatus::InvalidChain
        },
        None => if node.cert.subject == node.cert.issuer {
            ValidationStatus::Valid
        } else {
            ValidationStatus::InvalidChain
        },
    };
    node.validation_status = status;
    let ghost start = *node;
    let mut i: usize = 0;
    while i < node.children.len()
        invariant
            start.cert == old(node).cert,
            start.children == old(node).children,
            node.cert == old(node).cert,
            node.validity_status == old(node).validity_status,
            node.validation_status == status,
            status == expected_validation(node.cert.subject@, node.cert.issuer@, parent_subject(parent_cert)),
            node.children.len() == old(node).children.len(),
            0 <= i <= node.children.len(),
            forall|k: int| 0 <= k < i ==> same_shape(old(node).children@[k], #[trigger] node.children@[k]),
            forall|k: int| 0 <= k < i ==> validated_node(#[trigger] node.children@[k], Some(node.cert.subject@)),
            forall|k: int| i <= k < node.children.len() ==> #[trigger] node.children@[k] == old(node).children@[k],
        decreases node.children.len() - i,
    {
        assert(decreases_to!(*old(node) => old(node).children@[i as int]));
        validate_node(&mut node.children[i], Some(&node.cert));
        i = i + 1;
    }
}

/// Sets the chain status of every node of the forest: a root is `Valid`
/// when it names itself as its issuer, any other node when its parent's
/// subject is its issuer; `InvalidChain` otherwise. Nothing else changes.
pub fn validate_certificate_chain(tree: &mut CertificateTree)
    ensures
        final(tree).roots.len() == old(tree).roots.len(),
        forall|i: int| 0 <= i < old(tree).roots.len() ==> same_shape(old(tree).roots@[i], #[trigger] final(tree).roots@[i]),
        validated_forest(final(tree).roots@),
{
    let mut i: usize = 0;
    while i < tree.roots.len()
        invariant
            tree.roots.len() == old(tree).roots.len(),
            0 <= i <= tree.roots.len(),
            forall|k: int| 0 <= k < i ==> same_shape(old(tree).roots@[k], #[trigger] tree.roots@[k]),
            forall|k: int| 0 <= k < i ==> validated_node(#[trigger] tree.roots@[k], None),
            forall|k: int| i <= k < tree.roots.len() ==> #[trigger] tree.roots@[k] == old(tree).roots@[k],
        decreases tree.roots.len() - i,
    {
        validate_node(&mut tree.roots[i], None);
        i = i + 1;
    }
}

// ---------------------------------------------------------------------------
// Assembly: executable part
// ---------------------------------------------------------------------------

/// `placed[j]` says whether the subject of record `j` is in `done`.
pub open spec fn tracks(certs: Seq<CertificateInfo>, placed: Seq<bool>, done: Set<Seq<char>>) -> bool {
    &&& placed.len() == certs.len()
    &&& forall|j: int| 0 <= j < certs.len() ==> #[trigger] placed[j] == done.contains(certs[j].subject@)
}

/// The number of records whose subject is not yet placed.
pub open spec fn unplaced(placed: Seq<bool>) -> nat
    decreases placed.len(),
{
    if placed.len() == 0 {
        0
    } else {
        unplaced(placed.drop_last()) + if placed.last() { 0nat } else { 1nat }
    }
}

proof fn lemma_unplaced_monotone(a: Seq<bool>, b: Seq<bool>, flipped: int)
    requires
        a.len() == b.len(),
        forall|i: int| 0 <= i < a.len() && #[trigger] a[i] ==> b[i],
    ensures
        unplaced(b) <= unplaced(a),
        0 <= flipped < a.len() && !a[flipped] && b[flipped] ==> unplaced(b) < unplaced(a),
    decreases a.len(),
{
    if a.len() > 0 {
        let a2 = a.drop_last();
        let b2 = b.drop_last();
        assert forall|i: int| 0 <= i < a2.len() && #[trigger] a2[i] implies b2[i] by {
            assert(a[i]);
        }
        lemma_unplaced_monotone(a2, b2, flipped);
    }
}

proof fn lemma_last_with_subject(certs: Seq<CertificateInfo>, s: Seq<char>, end: int)
    requires
        0 <= end <= certs.len(),
    ensures
        -1 <= last_with_subject(certs, s, end) < end,
        last_with_subject(certs, s, end) >= 0 ==> certs[last_with_subject(certs, s, end)].subject@ == s,
        (exists|j: int| 0 <= j < end && #[trigger] certs[j].subject@ == s) ==> last_with_subject(certs, s, end) >= 0,
    decreases end,
{
    if end > 0 {
        lemma_last_with_subject(certs, s, end - 1);
        if certs[end - 1].subject@ != s {
            if exists|j: int| 0 <= j < end && #[trigger] certs[j].subject@ == s {
                let j = choose|j: int| 0 <= j < end && #[trigger] certs[j].subject@ == s;
                assert(j < end - 1);
            }
        }
    }
}

proof fn lemma_forest_subjects_push(nodes: Seq<CertificateNode>, c: CertificateNode)
    ensures
        forest_subjects(nodes.push(c)) == forest_subjects(nodes).union(node_subjects(c)),
    decreases nodes.len(),
{
    let pushed = nodes.push(c);
    if nodes.len() == 0 {
        assert(pushed[0] == c);
        assert(pushed.drop_first() =~= Seq::<CertificateNode>::empty());
        assert(forest_subjects(pushed.drop_first()) == Set::<Seq<char>>::empty());
        assert(forest_subjects(nodes) == Set::<Seq<char>>::empty());
        assert(forest_subjects(pushed) =~= forest_subjects(nodes).union(node_subjects(c)));
    } else {
        assert(pushed[0] == nodes[0]);
        assert(pushed.drop_first() =~= nodes.drop_first().push(c));
        lemma_forest_subjects_push(nodes.drop_first(), c);
        assert(forest_subjects(pushed) =~= forest_subjects(nodes).union(node_subjects(c)));
    }
}

fn has_subject_exec(certs: &[CertificateInfo], s: &String) -> (r: bool)
    ensures
        r == has_subject(certs@, s@),
{
    let mut j: usize = 0;
    while j < certs.len()
        invariant
            0 <= j <= certs.len(),
            forall|k: int| 0 <= k < j ==> #[trigger] certs@[k].subject@ != s@,
        decreases certs.len() - j,
    {
        if certs[j].subject == *s {
            return true;
        }
        j = j + 1;
    }
    false
}

/// The index of the last record with subject `s`.
fn record_index(certs: &[CertificateInfo], s: &String) -> (r: usize)
    requires
        has_subject(certs@, s@),
    ensures
        r == record_for(certs@, s@),
        r < certs.len(),
        certs@[r as int].subject@ == s@,
{
    proof {
        lemma_last_with_subject(certs@, s@, certs@.len() as int);
    }
    let mut end: usize = certs.len();
    while end > 0
        invariant
            end <= certs.len(),
            last_with_subject(certs@, s@, certs@.len() as int) == last_with_subject(certs@, s@, end as int),
            record_for(certs@, s@) >= 0,
        decreases end,
    {
        if certs[end - 1].subject == *s {
            return end - 1;
        }
        end = end - 1;
    }
    proof {
        assert(last_with_subject(certs@, s@, 0) == -1);
    }
    0
}

/// Marks as placed every record whose subject is `s`.
fn mark_subject(certs: &[CertificateInfo], placed: &mut Vec<bool>, s: &String, Ghost(done): Ghost<Set<Seq<char>>>)
    requires
        tracks(certs@, old(placed)@, done),
    ensures
        tracks(certs@, final(placed)@, done.insert(s@)),
{
    let mut j: usize = 0;
    while j < certs.len()
        invariant
            0 <= j <= certs.len(),
            placed.len() == certs.len(),
            forall|k: int| 0 <= k < j ==> #[trigger] placed@[k] == done.insert(s@).contains(certs@[k].subject@),
            forall|k: int| j <= k < certs.len() ==> #[trigger] placed@[k] == done.contains(certs@[k].subject@),
        decreases certs.len() - j,
    {
        if certs[j].subject == *s {
            placed.set(j, true);
        }
        j = j + 1;
    }
}

/// Materialises the record at `k` and, depth first, the records it issued
/// whose subjects are not yet placed. Its chain status is left at the
/// placeholder `Valid` until `validate_certificate_chain` sets it.
fn build_tree_node(
    certs: &[CertificateInfo],
    k: usize,
    placed: &mut Vec<bool>,
    now: i64,
    Ghost(done): Ghost<Set<Seq<char>>>,
) -> (node: CertificateNode)
    requires
        k < certs.len(),
        tracks(certs@, old(placed)@, done),
        !done.contains(certs@[k as int].subject@),
    ensures
        grown_node(certs@, now, k as int, done, node),
        node.validation_status == ValidationStatus::Valid,
        tracks(certs@, final(placed)@, done.union(node_subjects(node))),
    decreases unplaced(old(placed)@),
{
    let ghost start_placed = placed@;
    let subject = &certs[k].subject;
    mark_subject(certs, placed, subject, Ghost(done));
    proof {
        lemma_unplaced_monotone(start_placed, placed@, k as int);
    }
    let validity_status = ValidityStatus::from_dates_at(&certs[k].not_after, now);
    let ghost d0 = done.insert(subject@);
    let ghost mut cur = d0;
    let mut children: Vec<CertificateNode> = Vec::new();
    let mut j: usize = 0;
    while j < certs.len()
        invariant
            0 <= j <= certs.len(),
            k < certs.len(),
            subject@ == certs@[k as int].subject@,
            d0 == done.insert(subject@),
            tracks(certs@, placed@, cur),
            start_placed == old(placed)@,
            unplaced(placed@) < unplaced(start_placed),
            cur == d0.union(forest_subjects(children@)),
            forall|rest: Seq<CertificateNode>|
                grown_children(certs@, now, subject@, j as int, cur, rest) ==> #[trigger] grown_children(
                    certs@,
                    now,
                    subject@,
                    0,
                    d0,
                    children@ + rest,
                ),
        decreases certs.len() - j,
    {
        if certs[j].issuer == *subject && !placed[j] {
            proof {
                assert(has_subject(certs@, certs@[j as int].subject@));
            }
            let owner = record_index(certs, &certs[j].subject);
            let ghost before = placed@;
            let ghost old_children = children@;
            let child = build_tree_node(certs, owner, placed, now, Ghost(cur));
            proof {
                lemma_unplaced_monotone(before, placed@, -1);
                lemma_forest_subjects_push(old_children, child);
            }
            children.push(child);
            proof {
                let next = cur.union(node_subjects(child));
                assert forall|rest: Seq<CertificateNode>|
                    grown_children(certs@, now, subject@, j + 1, next, rest) implies #[trigger] grown_children(
                        certs@,
                        now,
                        subject@,
                        0,
                        d0,
                        children@ + rest,
                    ) by {
                    let with_child = seq![child] + rest;
                    assert(with_child[0] == child);
                    assert(with_child.drop_first() =~= rest);
                    assert(grown_children(certs@, now, subject@, j as int, cur, with_child));
                    assert(old_children + with_child =~= children@ + rest);
                }
                assert(next =~= d0.union(forest_subjects(children@)));
                cur = next;
            }
        } else {
            proof {
                assert forall|rest: Seq<CertificateNode>|
                    grown_children(certs@, now, subject@, j + 1, cur, rest) implies #[trigger] grown_children(
                        certs@,
                        now,
                        subject@,
                        0,
                        d0,
                        children@ + rest,
                    ) by {
                    assert(grown_children(certs@, now, subject@, j as int, cur, rest));
                }
            }
        }
        j = j + 1;
    }
    proof {
        assert(grown_children(certs@, now, subject@, j as int, cur, Seq::empty()));
        assert(children@ + Seq::<CertificateNode>::empty() =~= children@);
        assert(grown_children(certs@, now, subject@, 0, d0, children@ + Seq::<CertificateNode>::empty()));
    }
    let node = CertificateNode {
        cert: certs[k].clone(),
        children,
        validity_status,
        validation_status: ValidationStatus::Valid,
    };
    proof {
        assert(done.union(node_subjects(node)) =~= cur);
    }
    node
}

proof fn lemma_same_shape_subjects(a: CertificateNode, b: CertificateNode)
    requires
        same_shape(a, b),
    ensures
        node_subjects(a) == node_subjects(b),
    decreases a,
{
    lemma_same_shape_forest_subjects(a.children@, b.children@);
}

proof fn lemma_same_shape_forest_subjects(xs: Seq<CertificateNode>, ys: Seq<CertificateNode>)
    requires
        xs.len() == ys.len(),
        forall|i: int| 0 <= i < xs.len() ==> same_shape(#[trigger] xs[i], ys[i]),
    ensures
        forest_subjects(xs) == forest_subjects(ys),
    decreases xs,
{
    if xs.len() > 0 {
        lemma_same_shape_subjects(xs[0], ys[0]);
        assert forall|i: int| 0 <= i < xs.drop_first().len() implies same_shape(
            #[trigger] xs.drop_first()[i],
            ys.drop_first()[i],
        ) by {
            assert(same_shape(xs[i + 1], ys[i + 1]));
        }
        lemma_same_shape_forest_subjects(xs.drop_first(), ys.drop_first());
    }
}

proof fn lemma_grown_node_shape(
    certs: Seq<CertificateInfo>,
    now: i64,
    k: int,
    done: Set<Seq<char>>,
    a: CertificateNode,
    b: CertificateNode,
)
    requires
        grown_node(certs, now, k, done, a),
        same_shape(a, b),
    ensures
        grown_node(certs, now, k, done, b),
    decreases a,
{
    assert forall|i: int| 0 <= i < a.children@.len() implies same_shape(
        #[trigger] a.children@[i],
        b.children@[i],
    ) by {}
    lemma_grown_children_shape(
        certs,
        now,
        certs[k].subject@,
        0,
        done.insert(certs[k].subject@),
        a.children@,
        b.children@,
    );
}

proof fn lemma_grown_children_shape(
    certs: Seq<CertificateInfo>,
    now: i64,
    parent: Seq<char>,
    j: int,
    done: Set<Seq<char>>,
    xs: Seq<CertificateNode>,
    ys: Seq<CertificateNode>,
)
    requires
        grown_children(certs, now, parent, j, done, xs),
        xs.len() == ys.len(),
        forall|i: int| 0 <= i < xs.len() ==> same_shape(#[trigger] xs[i], ys[i]),
    ensures
        grown_children(certs, now, parent, j, done, ys),
    decreases xs, certs.len() - j,
{
    if j >= certs.len() {
    } else if certs[j].issuer@ != parent || done.contains(certs[j].subject@) {
        lemma_grown_children_shape(certs, now, parent, j + 1, done, xs, ys);
    } else {
        lemma_grown_node_shape(certs, now, record_for(certs, certs[j].subject@), done, xs[0], ys[0]);
        lemma_same_shape_subjects(xs[0], ys[0]);
        assert forall|i: int| 0 <= i < xs.drop_first().len() implies same_shape(
            #[trigger] xs.drop_first()[i],
            ys.drop_first()[i],
        ) by {
            assert(same_shape(xs[i + 1], ys[i + 1]));
        }
        lemma_grown_children_shape(
            certs,
            now,
            parent,
            j + 1,
            done.union(node_subjects(xs[0])),
            xs.drop_first(),
            ys.drop_first(),
        );
    }
}

proof fn lemma_grown_roots_shape(
    certs: Seq<CertificateInfo>,
    now: i64,
    step: int,
    done: Set<Seq<char>>,
    xs: Seq<CertificateNode>,
    ys: Seq<CertificateNode>,
)
    requires
        grown_roots(certs, now, step, done, xs),
        xs.len() == ys.len(),
        forall|i: int| 0 <= i < xs.len() ==> same_shape(#[trigger] xs[i], ys[i]),
    ensures
        grown_roots(certs, now, step, done, ys),
    decreases xs, 2 * certs.len() - step,
{
    if step >= 2 * certs.len() {
    } else if (step < certs.len() && !is_root_candidate(certs, step))
        || done.contains(certs[step_index(certs, step)].subject@) {
        lemma_grown_roots_shape(certs, now, step + 1, done, xs, ys);
    } else {
        lemma_grown_node_shape(certs, now, step_index(certs, step), done, xs[0], ys[0]);
        lemma_same_shape_subjects(xs[0], ys[0]);
        assert forall|i: int| 0 <= i < xs.drop_first().len() implies same_shape(
            #[trigger] xs.drop_first()[i],
            ys.drop_first()[i],
        ) by {
            assert(same_shape(xs[i + 1], ys[i + 1]));
        }
        lemma_grown_roots_shape(
            certs,
            now,
            step + 1,
            done.union(node_subjects(xs[0])),
            xs.drop_first(),
            ys.drop_first(),
        );
    }
}

fn is_root_candidate_exec(certs: &[CertificateInfo], i: usize) -> (r: bool)
    requires
        i < certs.len(),
    ensures
        r == is_root_candidate(certs@, i as int),
{
    !has_subject_exec(certs, &certs[i].issuer) || certs[i].subject == certs[i].issuer
}

/// Runs one of the two root passes over the records: the first pass when
/// `sweep` is false, the orphan sweep when it is true.
fn root_pass(
    certs: &[CertificateInfo],
    sweep: bool,
    placed: &mut Vec<bool>,
    roots: &mut Vec<CertificateNode>,
    now: i64,
    Ghost(done): Ghost<Set<Seq<char>>>,
) -> (after: Ghost<Set<Seq<char>>>)
    requires
        tracks(certs@, old(placed)@, done),
        done == forest_subjects(old(roots)@),
        forall|rest: Seq<CertificateNode>|
            grown_roots(certs@, now, if sweep { certs@.len() as int } else { 0 }, done, rest)
                ==> #[trigger] grown_roots(certs@, now, 0, Set::empty(), old(roots)@ + rest),
    ensures
        tracks(certs@, final(placed)@, after@),
        after@ == forest_subjects(final(roots)@),
        forall|rest: Seq<CertificateNode>|
            grown_roots(certs@, now, if sweep { 2 * certs@.len() as int } else { certs@.len() as int }, after@, rest)
                ==> #[trigger] grown_roots(certs@, now, 0, Set::empty(), final(roots)@ + rest),
{
    let ghost base: int = if sweep { certs@.len() as int } else { 0 };
    let ghost mut cur = done;
    let mut i: usize = 0;
    while i < certs.len()
        invariant
            0 <= i <= certs.len(),
            base == if sweep { certs@.len() as int } else { 0 },
            tracks(certs@, placed@, cur),
            cur == forest_subjects(roots@),
            forall|rest: Seq<CertificateNode>|
                grown_roots(certs@, now, base + i, cur, rest) ==> #[trigger] grown_roots(
                    certs@,
                    now,
                    0,
                    Set::empty(),
                    roots@ + rest,
                ),
        decreases certs.len() - i,
    {
        let ghost step: int = base + i;
        assert(step_index(certs@, step) == i);
        if (sweep || is_root_candidate_exec(certs, i)) && !placed[i] {
            let ghost old_roots = roots@;
            let node = build_tree_node(certs, i, placed, now, Ghost(cur));
            proof {
                lemma_forest_subjects_push(old_roots, node);
            }
            roots.push(node);
            proof {
                let next = cur.union(node_subjects(node));
                assert forall|rest: Seq<CertificateNode>|
                    grown_roots(certs@, now, step + 1, next, rest) implies #[trigger] grown_roots(
                        certs@,
                        now,
                        0,
                        Set::empty(),
                        roots@ + rest,
                    ) by {
                    let with_node = seq![node] + rest;
                    assert(with_node[0] == node);
                    assert(with_node.drop_first() =~= rest);
                    assert(grown_roots(certs@, now, step, cur, with_node));
                    assert(old_roots + with_node =~= roots@ + rest);
                }
                cur = next;
            }
        } else {
            proof {
                assert forall|rest: Seq<CertificateNode>|
                    grown_roots(certs@, now, step + 1, cur, rest) implies #[trigger] grown_roots(
                        certs@,
                        now,
                        0,
                        Set::empty(),
                        roots@ + rest,
                    ) by {
                    assert(grown_roots(certs@, now, step, cur, rest));
                }
            }
        }
        i = i + 1;
    }
    Ghost(cur)
}

/// Assembles the records into a forest, as seen at the instant `now`
/// (seconds since the epoch), and validates its chains.
pub fn build_certificate_tree_at(certificates: &[CertificateInfo], now: i64) -> (tree: CertificateTree)
    ensures
        built_forest(certificates@, now, tree.roots@),
        forest_size(tree.roots@) == distinct_subjects(certificates@).len(),
{
    let mut placed: Vec<bool> = Vec::new();
    let mut i: usize = 0;
    while i < certificates.len()
        invariant
            0 <= i <= certificates.len(),
            placed.len() == i,
            forall|j: int| 0 <= j < i ==> !#[trigger] placed@[j],
        decreases certificates.len() - i,
    {
        placed.push(false);
        i = i + 1;
    }
    let mut roots: Vec<CertificateNode> = Vec::new();
    proof {
        assert forall|rest: Seq<CertificateNode>|
            grown_roots(certificates@, now, 0, Set::empty(), rest) implies #[trigger] grown_roots(
                certificates@,
                now,
                0,
                Set::empty(),
                roots@ + rest,
            ) by {
            assert(roots@ + rest =~= rest);
        }
    }
    let Ghost(done) = root_pass(certificates, false, &mut placed, &mut roots, now, Ghost(Set::empty()));
    let Ghost(done) = root_pass(certificates, true, &mut placed, &mut roots, now, Ghost(done));
    proof {
        assert(grown_roots(certificates@, now, 2 * certificates@.len() as int, done, Seq::empty()));
        assert(roots@ + Seq::<CertificateNode>::empty() =~= roots@);
        assert(grown_roots(certificates@, now, 0, Set::empty(), roots@ + Seq::<CertificateNode>::empty()));
    }
    let ghost assembled_roots = roots@;
    let mut tree = CertificateTree { roots };
    validate_certificate_chain(&mut tree);
    proof {
        lemma_grown_roots_shape(certificates@, now, 0, Set::empty(), assembled_roots, tree.roots@);
        lemma_assembled_node_count(certificates@, now, tree.roots@);
    }
    tree
}

/// Assembles the records into a forest and validates its chains, reading
/// the current time once for the validity classes of all the nodes.
pub fn build_certificate_tree(certificates: &[CertificateInfo]) -> (tree: CertificateTree)
    ensures
        exists|now: i64| built_forest(certificates@, now, tree.roots@),
        forest_size(tree.roots@) == distinct_subjects(certificates@).len(),
{
    let now = current_timestamp();
    build_certificate_tree_at(certificates, now)
}

// ---------------------------------------------------------------------------
// Counting the nodes
// ---------------------------------------------------------------------------

proof fn lemma_subject_is_distinct(certs: Seq<CertificateInfo>, k: int)
    requires
        0 <= k < certs.len(),
    ensures
        distinct_subjects(certs).contains(certs[k].subject@),
{
    let subjects = certs.map_values(|c: CertificateInfo| c.subject@);
    assert(subjects[k] == certs[k].subject@);
    assert(subjects.contains(certs[k].subject@));
}

proof fn lemma_grown_node_count(
    certs: Seq<CertificateInfo>,
    now: i64,
    k: int,
    done: Set<Seq<char>>,
    node: CertificateNode,
)
    requires
        0 <= k < certs.len(),
        !done.contains(certs[k].subject@),
        grown_node(certs, now, k, done, node),
    ensures
        node_subjects(node).finite(),
        node_size(node) == node_subjects(node).len(),
        node_subjects(node).disjoint(done),
        node_subjects(node).subset_of(distinct_subjects(certs)),
        node_subjects(node).contains(certs[k].subject@),
    decreases node,
{
    let s = certs[k].subject@;
    lemma_grown_children_count(certs, now, s, 0, done.insert(s), node.children@);
    let kids = forest_subjects(node.children@);
    lemma_subject_is_distinct(certs, k);
    assert(!kids.contains(s));
    assert(set![s].disjoint(kids));
    vstd::set_lib::lemma_set_disjoint_lens(set![s], kids);
    assert(set![s].len() == 1) by {
        assert(set![s] =~= Set::<Seq<char>>::empty().insert(s));
    }
}

proof fn lemma_grown_children_count(
    certs: Seq<CertificateInfo>,
    now: i64,
    parent: Seq<char>,
    j: int,
    done: Set<Seq<char>>,
    kids: Seq<CertificateNode>,
)
    requires
        0 <= j,
        grown_children(certs, now, parent, j, done, kids),
    ensures
        forest_subjects(kids).finite(),
        forest_size(kids) == forest_subjects(kids).len(),
        forest_subjects(kids).disjoint(done),
        forest_subjects(kids).subset_of(distinct_subjects(certs)),
    decreases kids, certs.len() - j,
{
    if j >= certs.len() {
    } else if certs[j].issuer@ != parent || done.contains(certs[j].subject@) {
        lemma_grown_children_count(certs, now, parent, j + 1, done, kids);
    } else {
        let s = certs[j].subject@;
        lemma_last_with_subject(certs, s, certs.len() as int);
        let owner = record_for(certs, s);
        lemma_grown_node_count(certs, now, owner, done, kids[0]);
        let first = node_subjects(kids[0]);
        lemma_grown_children_count(certs, now, parent, j + 1, done.union(first), kids.drop_first());
        let rest = forest_subjects(kids.drop_first());
        vstd::set_lib::lemma_set_disjoint_lens(first, rest);
    }
}

proof fn lemma_grown_roots_count(
    certs: Seq<CertificateInfo>,
    now: i64,
    step: int,
    done: Set<Seq<char>>,
    roots: Seq<CertificateNode>,
)
    requires
        0 <= step,
        grown_roots(certs, now, step, done, roots),
    ensures
        forest_subjects(roots).finite(),
        forest_size(roots) == forest_subjects(roots).len(),
        forest_subjects(roots).disjoint(done),
        forest_subjects(roots).subset_of(distinct_subjects(certs)),
        forall|j: int|
            0 <= j < certs.len() && (step <= certs.len() || step - certs.len() <= j) ==> done.contains(
                #[trigger] certs[j].subject@,
            ) || forest_subjects(roots).contains(certs[j].subject@),
    decreases roots, 2 * certs.len() - step,
{
    if step >= 2 * certs.len() {
    } else if (step < certs.len() && !is_root_candidate(certs, step))
        || done.contains(certs[step_index(certs, step)].subject@) {
        lemma_grown_roots_count(certs, now, step + 1, done, roots);
    } else {
        let k = step_index(certs, step);
        lemma_grown_node_count(certs, now, k, done, roots[0]);
        let first = node_subjects(roots[0]);
        lemma_grown_roots_count(certs, now, step + 1, done.union(first), roots.drop_first());
        let rest = forest_subjects(roots.drop_first());
        vstd::set_lib::lemma_set_disjoint_lens(first, rest);
    }
}

/// Every distinct subject of the input stands in exactly one node of the
/// assembled forest: the number of nodes is the number of distinct subjects.
pub proof fn lemma_assembled_node_count(certs: Seq<CertificateInfo>, now: i64, roots: Seq<CertificateNode>)
    requires
        assembled(certs, now, roots),
    ensures
        forest_subjects(roots) == distinct_subjects(certs),
        forest_size(roots) == distinct_subjects(certs).len(),
{
    lemma_grown_roots_count(certs, now, 0, Set::empty(), roots);
    assert forall|s: Seq<char>| distinct_subjects(certs).contains(s) implies forest_subjects(roots).contains(s) by {
        let subjects = certs.map_values(|c: CertificateInfo| c.subject@);
        let j = choose|j: int| 0 <= j < subjects.len() && subjects[j] == s;
        assert(certs[j].subject@ == s);
    }
    assert(forest_subjects(roots) =~= distinct_subjects(certs));
}

// ---------------------------------------------------------------------------
// Determinism
// ---------------------------------------------------------------------------

/// The two trees hold the same records in the same places; their statuses
/// may differ.
pub open spec fn same_records(a: CertificateNode, b: CertificateNode) -> bool
    decreases a,
{
    &&& a.cert@ == b.cert@
    &&& a.children.len() == b.children.len()
    &&& forall|i: int|
        0 <= i < a.children.len() ==> same_records(#[trigger] a.children@[i], b.children@[i])
}

/// The two trees hold the same records in the same places with the same
/// chain statuses; their validity classes may differ.
pub open spec fn same_chain(a: CertificateNode, b: CertificateNode) -> bool
    decreases a,
{
    &&& a.cert@ == b.cert@
    &&& a.validation_status == b.validation_status
    &&& a.children.len() == b.children.len()
    &&& forall|i: int|
        0 <= i < a.children.len() ==> same_chain(#[trigger] a.children@[i], b.children@[i])
}

proof fn lemma_same_records_subjects(a: CertificateNode, b: CertificateNode)
    requires
        same_records(a, b),
    ensures
        node_subjects(a) == node_subjects(b),
    decreases a,
{
    lemma_same_records_forest_subjects(a.children@, b.children@);
}

proof fn lemma_same_records_forest_subjects(xs: Seq<CertificateNode>, ys: Seq<CertificateNode>)
    requires
        xs.len() == ys.len(),
        forall|i: int| 0 <= i < xs.len() ==> same_records(#[trigger] xs[i], ys[i]),
    ensures
        forest_subjects(xs) == forest_subjects(ys),
    decreases xs,
{
    if xs.len() > 0 {
        lemma_same_records_subjects(xs[0], ys[0]);
        assert forall|i: int| 0 <= i < xs.drop_first().len() implies same_records(
            #[trigger] xs.drop_first()[i],
            ys.drop_first()[i],
        ) by {
            assert(same_records(xs[i + 1], ys[i + 1]));
        }
        lemma_same_records_forest_subjects(xs.drop_first(), ys.drop_first());
    }
}

/// What grows from the same records at two instants agrees in its records,
/// and, at one instant, in its validity classes too.
pub open spec fn grown_alike(a: CertificateNode, b: CertificateNode, same_instant: bool) -> bool {
    same_records(a, b) && (same_instant ==> same_shape(a, b))
}

proof fn lemma_alike_pointwise_tail(xs: Seq<CertificateNode>, ys: Seq<CertificateNode>, same_instant: bool)
    requires
        xs.len() == ys.len(),
        xs.len() > 0,
        grown_alike(xs[0], ys[0], same_instant),
        forall|i: int|
            0 <= i < xs.drop_first().len() ==> grown_alike(#[trigger] xs.drop_first()[i], ys.drop_first()[i], same_instant),
    ensures
        forall|i: int| 0 <= i < xs.len() ==> grown_alike(#[trigger] xs[i], ys[i], same_instant),
{
    assert forall|i: int| 0 <= i < xs.len() implies grown_alike(#[trigger] xs[i], ys[i], same_instant) by {
        if i > 0 {
            assert(xs[i] == xs.drop_first()[i - 1]);
            assert(ys[i] == ys.drop_first()[i - 1]);
        }
    }
}

proof fn lemma_grown_node_unique(
    certs: Seq<CertificateInfo>,
    now1: i64,
    now2: i64,
    k: int,
    done: Set<Seq<char>>,
    a: CertificateNode,
    b: CertificateNode,
)
    requires
        grown_node(certs, now1, k, done, a),
        grown_node(certs, now2, k, done, b),
    ensures
        grown_alike(a, b, now1 == now2),
    decreases a,
{
    lemma_grown_children_unique(
        certs,
        now1,
        now2,
        certs[k].subject@,
        0,
        done.insert(certs[k].subject@),
        a.children@,
        b.children@,
    );
}

proof fn lemma_grown_children_unique(
    certs: Seq<CertificateInfo>,
    now1: i64,
    now2: i64,
    parent: Seq<char>,
    j: int,
    done: Set<Seq<char>>,
    xs: Seq<CertificateNode>,
    ys: Seq<CertificateNode>,
)
    requires
        grown_children(certs, now1, parent, j, done, xs),
        grown_children(certs, now2, parent, j, done, ys),
    ensures
        xs.len() == ys.len(),
        forall|i: int| 0 <= i < xs.len() ==> grown_alike(#[trigger] xs[i], ys[i], now1 == now2),
    decreases xs, certs.len() - j,
{
    if j >= certs.len() {
    } else if certs[j].issuer@ != parent || done.contains(certs[j].subject@) {
        lemma_grown_children_unique(certs, now1, now2, parent, j + 1, done, xs, ys);
    } else {
        lemma_grown_node_unique(certs, now1, now2, record_for(certs, certs[j].subject@), done, xs[0], ys[0]);
        lemma_same_records_subjects(xs[0], ys[0]);
        lemma_grown_children_unique(
            certs,
            now1,
            now2,
            parent,
            j + 1,
            done.union(node_subjects(xs[0])),
            xs.drop_first(),
            ys.drop_first(),
        );
        lemma_alike_pointwise_tail(xs, ys, now1 == now2);
    }
}

proof fn lemma_grown_roots_unique(
    certs: Seq<CertificateInfo>,
    now1: i64,
    now2: i64,
    step: int,
    done: Set<Seq<char>>,
    xs: Seq<CertificateNode>,
    ys: Seq<CertificateNode>,
)
    requires
        grown_roots(certs, now1, step, done, xs),
        grown_roots(certs, now2, step, done, ys),
    ensures
        xs.len() == ys.len(),
        forall|i: int| 0 <= i < xs.len() ==> grown_alike(#[trigger] xs[i], ys[i], now1 == now2),
    decreases xs, 2 * certs.len() - step,
{
    if step >= 2 * certs.len() {
    } else if (step < certs.len() && !is_root_candidate(certs, step))
        || done.contains(certs[step_index(certs, step)].subject@) {
        lemma_grown_roots_unique(certs, now1, now2, step + 1, done, xs, ys);
    } else {
        lemma_grown_node_unique(certs, now1, now2, step_index(certs, step), done, xs[0], ys[0]);
        lemma_same_records_subjects(xs[0], ys[0]);
        lemma_grown_roots_unique(
            certs,
            now1,
            now2,
            step + 1,
            done.union(node_subjects(xs[0])),
            xs.drop_first(),
            ys.drop_first(),
        );
        lemma_alike_pointwise_tail(xs, ys, now1 == now2);
    }
}

proof fn lemma_validated_same_tree(a: CertificateNode, b: CertificateNode, parent: Option<Seq<char>>)
    requires
        same_shape(a, b),
        validated_node(a, parent),
        validated_node(b, parent),
    ensures
        same_tree(a, b),
    decreases a,
{
    assert forall|i: int| 0 <= i < a.children.len() implies same_tree(
        #[trigger] a.children@[i],
        b.children@[i],
    ) by {
        lemma_validated_same_tree(a.children@[i], b.children@[i], Some(a.cert.subject@));
    }
}

proof fn lemma_validated_same_chain(a: CertificateNode, b: CertificateNode, parent: Option<Seq<char>>)
    requires
        same_records(a, b),
        validated_node(a, parent),
        validated_node(b, parent),
    ensures
        same_chain(a, b),
    decreases a,
{
    assert forall|i: int| 0 <= i < a.children.len() implies same_chain(
        #[trigger] a.children@[i],
        b.children@[i],
    ) by {
        lemma_validated_same_chain(a.children@[i], b.children@[i], Some(a.cert.subject@));
    }
}

/// Assembling the same input twice, at the same instant, yields identical
/// forests: the same roots in the same order, the same children in the same
/// order, and the same validity and chain statuses at every node.
pub proof fn lemma_assembly_deterministic(
    certs: Seq<CertificateInfo>,
    now: i64,
    first: Seq<CertificateNode>,
    second: Seq<CertificateNode>,
)
    requires
        built_forest(certs, now, first),
        built_forest(certs, now, second),
    ensures
        first.len() == second.len(),
        forall|i: int| 0 <= i < first.len() ==> same_tree(#[trigger] first[i], second[i]),
{
    lemma_grown_roots_unique(certs, now, now, 0, Set::empty(), first, second);
    assert forall|i: int| 0 <= i < first.len() implies same_tree(#[trigger] first[i], second[i]) by {
        assert(grown_alike(first[i], second[i], true));
        lemma_validated_same_tree(first[i], second[i], None);
    }
}

/// Assembling the same input at two instants yields forests with the same
/// roots in the same order, the same children in the same order and the
/// same chain statuses; only validity classes can differ, as time passes.
pub proof fn lemma_assembly_shape_independent_of_time(
    certs: Seq<CertificateInfo>,
    now1: i64,
    now2: i64,
    first: Seq<CertificateNode>,
    second: Seq<CertificateNode>,
)
    requires
        built_forest(certs, now1, first),
        built_forest(certs, now2, second),
    ensures
        first.len() == second.len(),
        forall|i: int| 0 <= i < first.len() ==> same_chain(#[trigger] first[i], second[i]),
{
    lemma_grown_roots_unique(certs, now1, now2, 0, Set::empty(), first, second);
    assert forall|i: int| 0 <= i < first.len() implies same_chain(#[trigger] first[i], second[i]) by {
        assert(grown_alike(first[i], second[i], now1 == now2));
        lemma_validated_same_chain(first[i], second[i], None);
    }
}

} // verus!
