//! The plan as data: an arena of nodes addressed by indices.
//!
//! The arena is in postorder: the nodes of an input stand right before the
//! node that consumes it, those of a left input before those of the right one.
//! So every node but the last feeds exactly one consumer: the plan is a tree.

use crate::flow::Flow;
use crate::lazy::{Files, Outline};
use crate::ops::{Form, Generator, Mapper, Reducer, Zipper};
use crate::storage::Storage;
use crate::stream::{
    BatchStream, Chunked, GenerateStream, MapStream, Progress, StorageStream, SumStream, ZipStream,
};
use crate::tensor::TensorFileError;
use crate::view::checked_layout;
use vstd::prelude::*;
use vstd::string::*;

verus! {

/// Where a source's elements come from.
pub enum SourceKind {
    /// A storage that forms whole elements.
    Held { storage: Storage },
    /// The file that stands at position `slot` of those the plan scans.
    Scan { slot: usize },
    /// A function of the index.
    Generated { len: usize, op: Generator },
}

/// One node of a plan.
#[allow(inconsistent_fields)]
pub enum PlanNode {
    /// Produces batches out of thin air.
    Source {
        /// Human-readable description.
        label: String,
        kind: SourceKind,
        /// The size in bytes of one element.
        size: usize,
        /// The alignment in bytes of an element.
        align: usize,
    },
    /// Transforms each input batch into one output batch, element-wise.
    Apply {
        input: usize,
        op: Mapper,
        /// The size and alignment in bytes of an element.
        size: usize,
        align: usize,
    },
    /// Combines two inputs element-wise (re-chunking as needed).
    Zip {
        left: usize,
        right: usize,
        label: &'static str,
        op: Zipper,
        /// The sizes in bytes of one element of each input.
        left_size: usize,
        right_size: usize,
        /// The size and alignment in bytes of an element.
        size: usize,
        align: usize,
    },
    /// Drains its input and emits a single (one-element) batch.
    Reduce {
        input: usize,
        label: &'static str,
        op: Reducer,
        /// The size and alignment in bytes of an element.
        size: usize,
        align: usize,
    },
}

/// Computes how many elements fit the byte target (at least one).
pub fn elems_per_batch(batch_bytes: usize, size: usize) -> (n: usize)
    requires
        size > 0,
    ensures
        n == crate::lazy::batch_elems(batch_bytes as nat, size as nat),
{
    let n: usize = batch_bytes / size;
    if n == 0 {
        1
    } else {
        n
    }
}

/// A size and an alignment that elements can have.
pub open spec fn sound(form: Form) -> bool {
    &&& form.size > 0
    &&& form.align > 0
    &&& form.size % form.align == 0
}

/// The bytes of a file, none if it could not be opened.
pub open spec fn content(files: Files, slot: int) -> Seq<u8> {
    match files[slot] {
        Ok(storage) => storage@,
        Err(_) => Seq::empty(),
    }
}

/// The flow of a source.
pub open spec fn source_flow(kind: SourceKind, size: nat, batch_bytes: nat, files: Files) -> Flow<
    Seq<u8>,
> {
    let per_batch = crate::lazy::batch_elems(batch_bytes, size);
    match kind {
        SourceKind::Held { storage } => crate::flow::listed(
            crate::chunks::chunks(storage@, size),
            per_batch,
        ),
        SourceKind::Scan { slot } => crate::flow::listed(
            crate::chunks::chunks(content(files, slot as int), size),
            per_batch,
        ),
        SourceKind::Generated { len, op } => crate::stream::generate_flow(
            op,
            len as nat,
            per_batch,
        ),
    }
}

/// A source holds what elements of its form can be made of.
pub open spec fn source_ok(kind: SourceKind, form: Form) -> bool {
    &&& sound(form)
    &&& match kind {
        SourceKind::Held { storage } => storage.wf() && storage.viewable(form.size, form.align),
        SourceKind::Scan { .. } => true,
        SourceKind::Generated { op, .. } => op.form() == form,
    }
}

impl PlanNode {
    /// The form of the elements that the node produces.
    pub open spec fn form(self) -> Form {
        match self {
            PlanNode::Source { size, align, .. } => Form { size: size as nat, align: align as nat },
            PlanNode::Apply { size, align, .. } => Form { size: size as nat, align: align as nat },
            PlanNode::Zip { size, align, .. } => Form { size: size as nat, align: align as nat },
            PlanNode::Reduce { size, align, .. } => Form { size: size as nat, align: align as nat },
        }
    }

    /// The node is a file scan.
    pub open spec fn is_scan(self) -> bool {
        self matches PlanNode::Source { kind: SourceKind::Scan { .. }, .. }
    }

    /// Which of the plan's files a scan reads.
    pub open spec fn slot(self) -> nat {
        match self {
            PlanNode::Source { kind: SourceKind::Scan { slot }, .. } => slot as nat,
            _ => 0,
        }
    }

    /// What keeps the source from being opened, if anything does.
    pub open spec fn failure(self, files: Files) -> Option<TensorFileError> {
        match self {
            PlanNode::Source {
                kind: SourceKind::Scan { slot },
                size,
                align,
                ..
            } => crate::lazy::file_error(files[slot as int], size as nat, align as nat),
            _ => None,
        }
    }

    /// The node with every child index shifted by `offset` and every file by
    /// `slots`.
    pub open spec fn shifted(self, offset: int, slots: int) -> Self {
        match self {
            PlanNode::Source { label, kind, size, align } => PlanNode::Source {
                label,
                kind: match kind {
                    SourceKind::Scan { slot } => SourceKind::Scan { slot: (slot + slots) as usize },
                    other => other,
                },
                size,
                align,
            },
            PlanNode::Apply { input, op, size, align } => PlanNode::Apply {
                input: (input + offset) as usize,
                op,
                size,
                align,
            },
            PlanNode::Zip {
                left,
                right,
                label,
                op,
                left_size,
                right_size,
                size,
                align,
            } => PlanNode::Zip {
                left: (left + offset) as usize,
                right: (right + offset) as usize,
                label,
                op,
                left_size,
                right_size,
                size,
                align,
            },
            PlanNode::Reduce { input, label, op, size, align } => PlanNode::Reduce {
                input: (input + offset) as usize,
                label,
                op,
                size,
                align,
            },
        }
    }

    /// Child indices can be shifted by `offset`, and files by `slots`, without
    /// overflow.
    pub open spec fn shiftable(self, offset: int, slots: int) -> bool {
        match self {
            PlanNode::Source { kind, .. } => match kind {
                SourceKind::Scan { slot } => slot + slots <= usize::MAX,
                _ => true,
            },
            PlanNode::Apply { input, .. } => input + offset <= usize::MAX,
            PlanNode::Zip { left, right, .. } => left + offset <= usize::MAX && right + offset
                <= usize::MAX,
            PlanNode::Reduce { input, .. } => input + offset <= usize::MAX,
        }
    }

    /// Shifts every child index by `offset`, and every file by `slots`: used
    /// when two arenas are merged by a binary operation.
    pub fn shift_children(&mut self, offset: usize, slots: usize)
        requires
            old(self).shiftable(offset as int, slots as int),
        ensures
            *final(self) == old(self).shifted(offset as int, slots as int),
    {
        match self {
            PlanNode::Source { kind, .. } => {
                if let SourceKind::Scan { slot } = kind {
                    *slot = *slot + slots;
                }
            },
            PlanNode::Apply { input, .. } => {
                *input = *input + offset;
            },
            PlanNode::Reduce { input, .. } => {
                *input = *input + offset;
            },
            PlanNode::Zip { left, right, .. } => {
                *left = *left + offset;
                *right = *right + offset;
            },
        }
    }
}

/// The index of the first node of the part of the plan under node `id`.
pub open spec fn span(nodes: Seq<PlanNode>, id: nat) -> nat
    decreases id,
{
    match nodes[id as int] {
        PlanNode::Source { .. } => id,
        PlanNode::Apply { input, .. } => if input < id {
            span(nodes, input as nat)
        } else {
            id
        },
        PlanNode::Zip { left, .. } => if left < id {
            span(nodes, left as nat)
        } else {
            id
        },
        PlanNode::Reduce { input, .. } => if input < id {
            span(nodes, input as nat)
        } else {
            id
        },
    }
}

/// The part of the plan under node `id` is a tree in postorder, and each
/// operation takes elements of the form that its input produces.
pub open spec fn tree(nodes: Seq<PlanNode>, id: nat) -> bool
    decreases id,
{
    &&& id < nodes.len()
    &&& sound(nodes[id as int].form())
    &&& match nodes[id as int] {
        PlanNode::Source { kind, .. } => source_ok(kind, nodes[id as int].form()),
        PlanNode::Apply { input, op, .. } => {
            &&& input + 1 == id
            &&& op.form() == nodes[id as int].form()
            &&& tree(nodes, input as nat)
            &&& op.takes() == nodes[input as int].form()
        },
        PlanNode::Zip { left, right, op, left_size, right_size, .. } => {
            &&& right + 1 == id
            &&& left < right
            &&& op.form() == nodes[id as int].form()
            &&& tree(nodes, right as nat)
            &&& tree(nodes, left as nat)
            &&& left + 1 == span(nodes, right as nat)
            &&& op.takes_left() == nodes[left as int].form()
            &&& op.takes_right() == nodes[right as int].form()
            &&& left_size == op.takes_left().size
            &&& right_size == op.takes_right().size
        },
        PlanNode::Reduce { input, op, .. } => {
            &&& input + 1 == id
            &&& op.form() == nodes[id as int].form()
            &&& tree(nodes, input as nat)
            &&& op.form() == nodes[input as int].form()
        },
    }
}

/// The flow of node `id`.
pub open spec fn node_flow(nodes: Seq<PlanNode>, id: nat, batch_bytes: nat, files: Files) -> Flow<
    Seq<u8>,
>
    decreases id,
{
    match nodes[id as int] {
        PlanNode::Source { kind, size, .. } => source_flow(kind, size as nat, batch_bytes, files),
        PlanNode::Apply { input, op, .. } => if input < id {
            crate::stream::map_flow(op, node_flow(nodes, input as nat, batch_bytes, files))
        } else {
            arbitrary()
        },
        PlanNode::Zip { left, right, op, .. } => if left < id && right < id {
            crate::stream::zip_flow(
                op,
                node_flow(nodes, left as nat, batch_bytes, files),
                node_flow(nodes, right as nat, batch_bytes, files),
            )
        } else {
            arbitrary()
        },
        PlanNode::Reduce { input, op, .. } => if input < id {
            crate::stream::reduce_flow(op, node_flow(nodes, input as nat, batch_bytes, files))
        } else {
            arbitrary()
        },
    }
}

/// The outline of node `id`.
pub open spec fn node_outline(nodes: Seq<PlanNode>, id: nat) -> Outline
    decreases id,
{
    match nodes[id as int] {
        PlanNode::Source { label, .. } => Outline::Leaf(label@),
        PlanNode::Apply { input, .. } => if input < id {
            Outline::One("map"@, Box::new(node_outline(nodes, input as nat)))
        } else {
            arbitrary()
        },
        PlanNode::Zip { left, right, label, .. } => if left < id && right < id {
            Outline::Two(
                label@,
                Box::new(node_outline(nodes, left as nat)),
                Box::new(node_outline(nodes, right as nat)),
            )
        } else {
            arbitrary()
        },
        PlanNode::Reduce { input, label, .. } => if input < id {
            Outline::One(label@, Box::new(node_outline(nodes, input as nat)))
        } else {
            arbitrary()
        },
    }
}

/// No reduction under node `id` depends on how its input is cut into batches.
pub open spec fn batch_free(nodes: Seq<PlanNode>, id: nat) -> bool
    decreases id,
{
    match nodes[id as int] {
        PlanNode::Source { .. } => true,
        PlanNode::Apply { input, .. } => input < id && batch_free(nodes, input as nat),
        PlanNode::Zip { left, right, .. } => left < id && right < id && batch_free(
            nodes,
            left as nat,
        ) && batch_free(nodes, right as nat),
        PlanNode::Reduce { input, op, .. } => input < id && batch_free(nodes, input as nat)
            && crate::flow::batch_free(op.start(), crate::stream::reduce_step(op)),
    }
}

/// The size in bytes of the smallest elements among those of the sources under
/// node `id`.
pub open spec fn narrowest(nodes: Seq<PlanNode>, id: nat) -> nat
    decreases id,
{
    match nodes[id as int] {
        PlanNode::Source { size, .. } => size as nat,
        PlanNode::Apply { input, .. } => if input < id {
            narrowest(nodes, input as nat)
        } else {
            arbitrary()
        },
        PlanNode::Zip { left, right, .. } => if left < id && right < id {
            crate::lazy::smaller(narrowest(nodes, left as nat), narrowest(nodes, right as nat))
        } else {
            arbitrary()
        },
        PlanNode::Reduce { input, .. } => if input < id {
            narrowest(nodes, input as nat)
        } else {
            arbitrary()
        },
    }
}

/// The first failure among the sources from node `from` up to `to`.
pub open spec fn first_failure(nodes: Seq<PlanNode>, files: Files, from: int, to: int) -> Option<
    TensorFileError,
>
    decreases to - from,
{
    if to <= from {
        None
    } else {
        match first_failure(nodes, files, from, to - 1) {
            Some(error) => Some(error),
            None => nodes[to - 1].failure(files),
        }
    }
}

/// Node `b` does over `fb` what node `a` does over `fa`, with its inputs `d`
/// places further on.
pub open spec fn agrees(a: PlanNode, fa: Files, b: PlanNode, fb: Files, d: int) -> bool {
    match (a, b) {
        (
            PlanNode::Source { label: la, kind: ka, size: sa, align: aa },
            PlanNode::Source { label: lb, kind: kb, size: sb, align: ab },
        ) => {
            &&& la@ == lb@
            &&& sa == sb
            &&& aa == ab
            &&& source_ok(ka, a.form()) ==> source_ok(kb, b.form())
            &&& forall|batch_bytes: nat| #[trigger]
                source_flow(kb, sb as nat, batch_bytes, fb) == source_flow(
                    ka,
                    sa as nat,
                    batch_bytes,
                    fa,
                )
        },
        (
            PlanNode::Apply { input: ia, op: oa, .. },
            PlanNode::Apply { input: ib, op: ob, .. },
        ) => {
            &&& ib == ia + d
            &&& oa == ob
            &&& a.form() == b.form()
        },
        (
            PlanNode::Zip {
                left: la,
                right: ra,
                label: na,
                op: oa,
                left_size: lsa,
                right_size: rsa,
                ..
            },
            PlanNode::Zip {
                left: lb,
                right: rb,
                label: nb,
                op: ob,
                left_size: lsb,
                right_size: rsb,
                ..
            },
        ) => {
            &&& lb == la + d
            &&& rb == ra + d
            &&& na@ == nb@
            &&& oa == ob
            &&& lsa == lsb
            &&& rsa == rsb
            &&& a.form() == b.form()
        },
        (
            PlanNode::Reduce { input: ia, label: na, op: oa, .. },
            PlanNode::Reduce { input: ib, label: nb, op: ob, .. },
        ) => {
            &&& ib == ia + d
            &&& na@ == nb@
            &&& oa == ob
            &&& a.form() == b.form()
        },
        _ => false,
    }
}

/// The part of a plan under a node starts at or before it.
pub proof fn lemma_span(nodes: Seq<PlanNode>, id: nat)
    requires
        tree(nodes, id),
    ensures
        span(nodes, id) <= id,
    decreases id,
{
    match nodes[id as int] {
        PlanNode::Source { .. } => {},
        PlanNode::Apply { input, .. } => lemma_span(nodes, input as nat),
        PlanNode::Zip { left, .. } => lemma_span(nodes, left as nat),
        PlanNode::Reduce { input, .. } => lemma_span(nodes, input as nat),
    }
}

/// Nodes that agree make the same plan.
pub proof fn lemma_agrees(
    a: Seq<PlanNode>,
    fa: Files,
    b: Seq<PlanNode>,
    fb: Files,
    id: nat,
    d: int,
)
    requires
        tree(a, id),
        0 <= id + d < b.len(),
        0 <= span(a, id) + d,
        forall|k: int| span(a, id) <= k <= id ==> agrees(a[k], fa, #[trigger] b[k + d], fb, d),
    ensures
        tree(b, (id + d) as nat),
        span(b, (id + d) as nat) == span(a, id) + d,
        node_outline(b, (id + d) as nat) == node_outline(a, id),
        batch_free(b, (id + d) as nat) == batch_free(a, id),
        narrowest(b, (id + d) as nat) == narrowest(a, id),
        b[id + d].form() == a[id as int].form(),
        forall|batch_bytes: nat| #[trigger]
            node_flow(b, (id + d) as nat, batch_bytes, fb) == node_flow(a, id, batch_bytes, fa),
    decreases id,
{
    lemma_span(a, id);
    assert(agrees(a[id as int], fa, b[id + d], fb, d));
    let at = (id + d) as nat;
    match a[id as int] {
        PlanNode::Source { .. } => {
            assert forall|batch_bytes: nat| #[trigger]
                node_flow(b, at, batch_bytes, fb) == node_flow(a, id, batch_bytes, fa) by {}
        },
        PlanNode::Apply { input, .. } => {
            lemma_span(a, input as nat);
            lemma_agrees(a, fa, b, fb, input as nat, d);
            assert forall|batch_bytes: nat| #[trigger]
                node_flow(b, at, batch_bytes, fb) == node_flow(a, id, batch_bytes, fa) by {
                assert(node_flow(b, (input + d) as nat, batch_bytes, fb) == node_flow(
                    a,
                    input as nat,
                    batch_bytes,
                    fa,
                ));
            }
        },
        PlanNode::Zip { left, right, .. } => {
            lemma_span(a, right as nat);
            lemma_span(a, left as nat);
            lemma_agrees(a, fa, b, fb, right as nat, d);
            lemma_agrees(a, fa, b, fb, left as nat, d);
            assert forall|batch_bytes: nat| #[trigger]
                node_flow(b, at, batch_bytes, fb) == node_flow(a, id, batch_bytes, fa) by {
                assert(node_flow(b, (left + d) as nat, batch_bytes, fb) == node_flow(
                    a,
                    left as nat,
                    batch_bytes,
                    fa,
                ));
                assert(node_flow(b, (right + d) as nat, batch_bytes, fb) == node_flow(
                    a,
                    right as nat,
                    batch_bytes,
                    fa,
                ));
            }
        },
        PlanNode::Reduce { input, .. } => {
            lemma_span(a, input as nat);
            lemma_agrees(a, fa, b, fb, input as nat, d);
            assert forall|batch_bytes: nat| #[trigger]
                node_flow(b, at, batch_bytes, fb) == node_flow(a, id, batch_bytes, fa) by {
                assert(node_flow(b, (input + d) as nat, batch_bytes, fb) == node_flow(
                    a,
                    input as nat,
                    batch_bytes,
                    fa,
                ));
            }
        },
    }
}

/// No files: those of a plan that scans none, or whose sources are opened.
pub open spec fn no_files() -> Files {
    Seq::empty()
}

pub proof fn lemma_failure_split(nodes: Seq<PlanNode>, files: Files, from: int, mid: int, to: int)
    requires
        from <= mid <= to,
    ensures
        first_failure(nodes, files, from, to) == match first_failure(nodes, files, from, mid) {
            Some(error) => Some(error),
            None => first_failure(nodes, files, mid, to),
        },
    decreases to - mid,
{
    if mid < to {
        lemma_failure_split(nodes, files, from, mid, to - 1);
    }
}

pub proof fn lemma_failure_agrees(
    a: Seq<PlanNode>,
    fa: Files,
    b: Seq<PlanNode>,
    fb: Files,
    from: int,
    to: int,
    d: int,
)
    requires
        forall|k: int| from <= k < to ==> a[k].failure(fa) == (#[trigger] b[k + d]).failure(fb),
    ensures
        first_failure(b, fb, from + d, to + d) == first_failure(a, fa, from, to),
    decreases to - from,
{
    if from < to {
        lemma_failure_agrees(a, fa, b, fb, from, to - 1, d);
        assert(a[to - 1].failure(fa) == b[to - 1 + d].failure(fb));
    }
}

/// The outline of a tree has as many entries as the tree has nodes.
pub proof fn lemma_outline_size(nodes: Seq<PlanNode>, id: nat)
    requires
        tree(nodes, id),
    ensures
        crate::lazy::outline_size(node_outline(nodes, id)) == id - span(nodes, id) + 1,
    decreases id,
{
    match nodes[id as int] {
        PlanNode::Source { .. } => {},
        PlanNode::Apply { input, .. } => lemma_outline_size(nodes, input as nat),
        PlanNode::Zip { left, right, .. } => {
            lemma_outline_size(nodes, left as nat);
            lemma_outline_size(nodes, right as nat);
        },
        PlanNode::Reduce { input, .. } => lemma_outline_size(nodes, input as nat),
    }
}

/// No batch is empty.
pub proof fn lemma_positive_batches(
    nodes: Seq<PlanNode>,
    id: nat,
    batch_bytes: nat,
    files: Files,
)
    requires
        tree(nodes, id),
    ensures
        crate::flow::positive(node_flow(nodes, id, batch_bytes, files).layout),
    decreases id,
{
    match nodes[id as int] {
        PlanNode::Source { kind, size, .. } => {
            let per_batch = crate::lazy::batch_elems(batch_bytes, size as nat);
            let len = match kind {
                SourceKind::Held { storage } => crate::chunks::chunks(storage@, size as nat).len(),
                SourceKind::Scan { slot } => crate::chunks::chunks(
                    content(files, slot as int),
                    size as nat,
                ).len(),
                SourceKind::Generated { len, .. } => len as nat,
            };
            crate::flow::lemma_even_layout(len, per_batch);
        },
        PlanNode::Apply { input, .. } => lemma_positive_batches(
            nodes,
            input as nat,
            batch_bytes,
            files,
        ),
        PlanNode::Zip { left, right, .. } => {
            lemma_positive_batches(nodes, left as nat, batch_bytes, files);
            lemma_positive_batches(nodes, right as nat, batch_bytes, files);
            crate::flow::lemma_merged_layout(
                node_flow(nodes, left as nat, batch_bytes, files).layout,
                node_flow(nodes, right as nat, batch_bytes, files).layout,
            );
        },
        PlanNode::Reduce { .. } => {},
    }
}

/// The elements do not depend on the batch size if no reduction does.
pub proof fn lemma_batching_is_invisible(
    nodes: Seq<PlanNode>,
    id: nat,
    batch_bytes: nat,
    other: nat,
    files: Files,
)
    requires
        tree(nodes, id),
        batch_free(nodes, id),
    ensures
        crate::laws::same_elements(
            node_flow(nodes, id, batch_bytes, files),
            node_flow(nodes, id, other, files),
        ),
        node_flow(nodes, id, batch_bytes, files).safe == node_flow(nodes, id, other, files).safe,
    decreases id,
{
    match nodes[id as int] {
        PlanNode::Source { kind, size, .. } => {
            let per_batch = crate::lazy::batch_elems(batch_bytes, size as nat);
            let per_other = crate::lazy::batch_elems(other, size as nat);
            match kind {
                SourceKind::Held { storage } => {
                    crate::laws::law_batching_keeps_source_elements(
                        crate::chunks::chunks(storage@, size as nat),
                        per_batch,
                        per_other,
                    );
                },
                SourceKind::Scan { slot } => {
                    crate::laws::law_batching_keeps_source_elements(
                        crate::chunks::chunks(content(files, slot as int), size as nat),
                        per_batch,
                        per_other,
                    );
                },
                SourceKind::Generated { len, op } => {
                    crate::laws::law_batching_keeps_generated_elements(
                        len as nat,
                        crate::stream::generate_accepts(op),
                        crate::stream::generate_gives(op),
                        crate::stream::room_for(op.form()),
                        per_batch,
                        per_other,
                    );
                },
            }
        },
        PlanNode::Apply { input, op, .. } => {
            lemma_batching_is_invisible(nodes, input as nat, batch_bytes, other, files);
            crate::laws::law_batching_keeps_mapped_elements(
                node_flow(nodes, input as nat, batch_bytes, files),
                node_flow(nodes, input as nat, other, files),
                crate::stream::map_accepts(op),
                crate::stream::map_gives(op),
                crate::stream::room_for(op.form()),
            );
        },
        PlanNode::Zip { left, right, op, .. } => {
            lemma_batching_is_invisible(nodes, left as nat, batch_bytes, other, files);
            lemma_batching_is_invisible(nodes, right as nat, batch_bytes, other, files);
            lemma_positive_batches(nodes, left as nat, batch_bytes, files);
            lemma_positive_batches(nodes, left as nat, other, files);
            lemma_positive_batches(nodes, right as nat, batch_bytes, files);
            lemma_positive_batches(nodes, right as nat, other, files);
            crate::laws::law_batching_keeps_zipped_elements(
                node_flow(nodes, left as nat, batch_bytes, files),
                node_flow(nodes, right as nat, batch_bytes, files),
                node_flow(nodes, left as nat, other, files),
                node_flow(nodes, right as nat, other, files),
                crate::stream::zip_accepts(op),
                crate::stream::zip_gives(op),
                crate::stream::room_for(op.form()),
            );
        },
        PlanNode::Reduce { input, op, .. } => {
            lemma_batching_is_invisible(nodes, input as nat, batch_bytes, other, files);
            crate::laws::law_batching_keeps_reduced_elements(
                node_flow(nodes, input as nat, batch_bytes, files),
                node_flow(nodes, input as nat, other, files),
                op.start(),
                crate::stream::reduce_step(op),
                crate::stream::room_for(op.form()),
            );
        },
    }
}

/// Smaller elements make for more of them in a batch.
proof fn lemma_batch_elems_order(batch_bytes: nat, small: nat, large: nat)
    requires
        0 < small <= large,
    ensures
        crate::lazy::batch_elems(batch_bytes, large) <= crate::lazy::batch_elems(
            batch_bytes,
            small,
        ),
{
    vstd::arithmetic::div_mod::lemma_div_is_ordered_by_denominator(
        batch_bytes as int,
        small as int,
        large as int,
    );
}

/// No batch holds more elements than the batch size allows of the smallest
/// elements among those of the sources.
pub proof fn lemma_bounded_batches(
    nodes: Seq<PlanNode>,
    id: nat,
    batch_bytes: nat,
    files: Files,
)
    requires
        tree(nodes, id),
    ensures
        narrowest(nodes, id) > 0,
        crate::flow::at_most(
            node_flow(nodes, id, batch_bytes, files).layout,
            crate::lazy::batch_elems(batch_bytes, narrowest(nodes, id)),
        ),
    decreases id,
{
    let layout = node_flow(nodes, id, batch_bytes, files).layout;
    match nodes[id as int] {
        PlanNode::Source { kind, size, .. } => {
            let per_batch = crate::lazy::batch_elems(batch_bytes, size as nat);
            let len = match kind {
                SourceKind::Held { storage } => crate::chunks::chunks(storage@, size as nat).len(),
                SourceKind::Scan { slot } => crate::chunks::chunks(
                    content(files, slot as int),
                    size as nat,
                ).len(),
                SourceKind::Generated { len, .. } => len as nat,
            };
            assert forall|i: int| 0 <= i < layout.len() implies #[trigger] layout[i] <= per_batch by {
                crate::laws::law_source_batches_are_bounded(len, per_batch, i);
            }
        },
        PlanNode::Apply { input, .. } => lemma_bounded_batches(
            nodes,
            input as nat,
            batch_bytes,
            files,
        ),
        PlanNode::Zip { left, right, .. } => {
            lemma_bounded_batches(nodes, left as nat, batch_bytes, files);
            lemma_bounded_batches(nodes, right as nat, batch_bytes, files);
            let least = narrowest(nodes, id);
            lemma_batch_elems_order(batch_bytes, least, narrowest(nodes, left as nat));
            lemma_batch_elems_order(batch_bytes, least, narrowest(nodes, right as nat));
            assert forall|i: int|
                0 <= i < layout.len() implies #[trigger] layout[i] <= crate::lazy::batch_elems(
                batch_bytes,
                least,
            ) by {
                crate::laws::law_zipped_batches_are_bounded(
                    node_flow(nodes, left as nat, batch_bytes, files).layout,
                    node_flow(nodes, right as nat, batch_bytes, files).layout,
                    crate::lazy::batch_elems(batch_bytes, narrowest(nodes, left as nat)),
                    crate::lazy::batch_elems(batch_bytes, narrowest(nodes, right as nat)),
                    i,
                );
            }
        },
        PlanNode::Reduce { input, .. } => {
            lemma_bounded_batches(nodes, input as nat, batch_bytes, files);
        },
    }
}

/// Every node under a node of a tree produces elements of a sound form.
pub proof fn lemma_tree_forms(nodes: Seq<PlanNode>, id: nat, k: int)
    requires
        tree(nodes, id),
        span(nodes, id) <= k <= id,
    ensures
        sound(nodes[k].form()),
    decreases id,
{
    match nodes[id as int] {
        PlanNode::Source { .. } => {},
        PlanNode::Apply { input, .. } => {
            if k < id {
                lemma_tree_forms(nodes, input as nat, k);
            }
        },
        PlanNode::Zip { left, right, .. } => {
            if k <= left {
                lemma_tree_forms(nodes, left as nat, k);
            } else if k < id {
                lemma_tree_forms(nodes, right as nat, k);
            }
        },
        PlanNode::Reduce { input, .. } => {
            if k < id {
                lemma_tree_forms(nodes, input as nat, k);
            }
        },
    }
}

/// Opens the file sources in order: each becomes a source that holds the
/// file's bytes, unless the file could not be opened or does not form whole
/// elements.
pub fn open_sources(nodes: &mut Vec<PlanNode>, opened: Vec<Result<Storage, String>>) -> (result:
    Result<(), TensorFileError>)
    requires
        forall|i: int| 0 <= i < old(nodes)@.len() ==> sound(#[trigger] old(nodes)@[i].form()),
        forall|i: int|
            0 <= i < old(nodes)@.len() && (#[trigger] old(nodes)@[i]).is_scan()
                ==> old(nodes)@[i].slot() < opened@.len(),
        forall|i: int|
            0 <= i < opened@.len() ==> ((#[trigger] opened@[i]) matches Ok(storage)
                ==> storage.wf()),
    ensures
        match result {
            Ok(_) => {
                &&& first_failure(old(nodes)@, opened@, 0, old(nodes)@.len() as int) is None
                &&& final(nodes)@.len() == old(nodes)@.len()
                &&& forall|i: int|
                    0 <= i < old(nodes)@.len() ==> agrees(
                        old(nodes)@[i],
                        opened@,
                        #[trigger] final(nodes)@[i],
                        no_files(),
                        0,
                    ) && !final(nodes)@[i].is_scan()
            },
            Err(error) => first_failure(old(nodes)@, opened@, 0, old(nodes)@.len() as int) == Some(
                error,
            ),
        },
{
    let ghost plan = nodes@;
    let ghost files = opened@;
    let mut outcomes = opened;
    let mut i: usize = 0;
    while i < nodes.len()
        invariant
            i <= nodes@.len(),
            nodes@.len() == plan.len(),
            plan == old(nodes)@,
            files == opened@,
            outcomes@ == files,
            forall|k: int| 0 <= k < plan.len() ==> sound(#[trigger] plan[k].form()),
            forall|k: int|
                0 <= k < plan.len() && (#[trigger] plan[k]).is_scan() ==> plan[k].slot()
                    < files.len(),
            forall|k: int|
                0 <= k < files.len() ==> ((#[trigger] files[k]) matches Ok(storage)
                    ==> storage.wf()),
            first_failure(plan, files, 0, i as int) is None,
            forall|k: int| i <= k < plan.len() ==> #[trigger] nodes@[k] == plan[k],
            forall|k: int|
                0 <= k < i ==> agrees(plan[k], files, #[trigger] nodes@[k], no_files(), 0)
                    && !nodes@[k].is_scan(),
        decreases nodes@.len() - i,
    {
        let ghost node = nodes@[i as int];
        proof {
            lemma_failure_split(plan, files, 0, i as int + 1, plan.len() as int);
            assert(sound(plan[i as int].form()));
        }
        let scan: Option<(usize, usize, usize)> = match &nodes[i] {
            PlanNode::Source { kind: SourceKind::Scan { slot }, size, align, .. } => Some(
                (*slot, *size, *align),
            ),
            _ => None,
        };
        match scan {
            None => {},
            Some((slot, size, align)) => {
                assert(plan[i as int].is_scan());
                let storage = match &outcomes[slot] {
                    Ok(storage) => Some(storage.clone()),
                    Err(_) => None,
                };
                match storage {
                    None => {
                        match outcomes.swap_remove(slot) {
                            Err(reason) => {
                                return Err(TensorFileError::Io(reason));
                            },
                            Ok(_) => {
                                assert(false);
                            },
                        }
                    },
                    Some(storage) => {
                        match checked_layout(&storage, size, align) {
                            Err(error) => {
                                return Err(TensorFileError::View(error));
                            },
                            Ok(_) => {
                                if let PlanNode::Source { kind, .. } = &mut nodes[i] {
                                    *kind = SourceKind::Held { storage };
                                }
                            },
                        }
                    },
                }
            },
        }
        i = i + 1;
    }
    Ok(())
}

/// Returns `true` if every file source can be opened. Nothing is opened.
pub fn sources_open(nodes: &Vec<PlanNode>, opened: &Vec<Result<Storage, String>>) -> (all: bool)
    requires
        forall|i: int| 0 <= i < nodes@.len() ==> sound(#[trigger] nodes@[i].form()),
        forall|i: int|
            0 <= i < nodes@.len() && (#[trigger] nodes@[i]).is_scan() ==> nodes@[i].slot()
                < opened@.len(),
        forall|i: int|
            0 <= i < opened@.len() ==> ((#[trigger] opened@[i]) matches Ok(storage)
                ==> storage.wf()),
    ensures
        all == (first_failure(nodes@, opened@, 0, nodes@.len() as int) is None),
{
    let mut i: usize = 0;
    while i < nodes.len()
        invariant
            i <= nodes@.len(),
            forall|k: int| 0 <= k < nodes@.len() ==> sound(#[trigger] nodes@[k].form()),
            forall|k: int|
                0 <= k < nodes@.len() && (#[trigger] nodes@[k]).is_scan() ==> nodes@[k].slot()
                    < opened@.len(),
            forall|k: int|
                0 <= k < opened@.len() ==> ((#[trigger] opened@[k]) matches Ok(storage)
                    ==> storage.wf()),
            first_failure(nodes@, opened@, 0, i as int) is None,
        decreases nodes@.len() - i,
    {
        proof {
            lemma_failure_split(nodes@, opened@, 0, i as int + 1, nodes@.len() as int);
            assert(sound(nodes@[i as int].form()));
        }
        if let PlanNode::Source { kind: SourceKind::Scan { slot }, size, align, .. } = &nodes[i] {
            assert(nodes@[i as int].is_scan());
            match &opened[*slot] {
                Err(_) => {
                    return false;
                },
                Ok(storage) => {
                    if checked_layout(storage, *size, *align).is_err() {
                        return false;
                    }
                },
            }
        }
        i = i + 1;
    }
    true
}

/// Recursively instantiates the stream of node `id`, taking each node out of
/// the arena (every node is used exactly once: the plan is a tree).
pub fn build_stream(
    nodes: &mut Vec<Option<PlanNode>>,
    id: usize,
    batch_bytes: usize,
    Ghost(plan): Ghost<Seq<PlanNode>>,
) -> (stream: BatchStream)
    requires
        tree(plan, id as nat),
        old(nodes)@.len() == plan.len(),
        forall|k: int|
            span(plan, id as nat) <= k <= id ==> #[trigger] old(nodes)@[k] == Some(plan[k])
                && !plan[k].is_scan(),
        node_flow(plan, id as nat, batch_bytes as nat, no_files()).safe,
        node_flow(plan, id as nat, batch_bytes as nat, no_files()).fits,
    ensures
        stream.wf(),
        stream.progress() == Progress::fresh(
            node_flow(plan, id as nat, batch_bytes as nat, no_files()),
            plan[id as int].form(),
            stream.progress().depth,
        ),
        final(nodes)@.len() == plan.len(),
        forall|k: int| span(plan, id as nat) <= k <= id ==> #[trigger] final(nodes)@[k] is None,
        forall|k: int|
            0 <= k < plan.len() && (k < span(plan, id as nat) || id < k)
                ==> #[trigger] final(nodes)@[k] == old(nodes)@[k],
    decreases id,
{
    proof {
        lemma_span(plan, id as nat);
        assert(nodes@[id as int] == Some(plan[id as int]));
    }
    let ghost form = plan[id as int].form();
    match nodes[id].take() {
        None => {
            vstd::pervasive::unreached()
        },
        Some(node) => match node {
            PlanNode::Source { kind, size, .. } => {
                let per_batch: usize = elems_per_batch(batch_bytes, size);
                match kind {
                    SourceKind::Held { storage } => BatchStream::Slices(
                        StorageStream::new(storage, size, per_batch, Ghost(form)),
                    ),
                    SourceKind::Generated { len, op } => BatchStream::Generated(
                        GenerateStream::new(op, len, per_batch),
                    ),
                    SourceKind::Scan { .. } => vstd::pervasive::unreached(),
                }
            },
            PlanNode::Apply { input, op, .. } => {
                let inner = build_stream(nodes, input, batch_bytes, Ghost(plan));
                BatchStream::Mapped(Box::new(MapStream::new(inner, op)))
            },
            PlanNode::Zip { left, right, op, left_size, right_size, .. } => {
                proof {
                    lemma_span(plan, left as nat);
                    lemma_span(plan, right as nat);
                }
                let left = build_stream(nodes, left, batch_bytes, Ghost(plan));
                let right = build_stream(nodes, right, batch_bytes, Ghost(plan));
                BatchStream::Zipped(
                    Box::new(
                        ZipStream::new(
                            Chunked::new(left, left_size),
                            Chunked::new(right, right_size),
                            op,
                        ),
                    ),
                )
            },
            PlanNode::Reduce { input, op, .. } => {
                let inner = build_stream(nodes, input, batch_bytes, Ghost(plan));
                BatchStream::Summed(Box::new(SumStream::new(inner, op)))
            },
        },
    }
}

fn extended(prefix: &str, more: &str) -> (text: String)
    ensures
        text@ == prefix@ + more@,
{
    let mut text = String::new();
    text.append(prefix);
    text.append(more);
    assert(text@ =~= prefix@ + more@);
    text
}

/// Appends the lines of node `id`: its label, then its inputs indented under
/// `prefix` with tree connectors.
pub fn render(nodes: &Vec<PlanNode>, id: usize, prefix: &str, out: &mut String)
    requires
        tree(nodes@, id as nat),
    ensures
        final(out)@ == old(out)@ + crate::lazy::lines(node_outline(nodes@, id as nat), prefix@),
    decreases id, 0nat,
{
    match &nodes[id] {
        PlanNode::Source { label, .. } => {
            out.append(label.as_str());
            out.append("\n");
        },
        PlanNode::Apply { input, .. } => {
            out.append("map");
            out.append("\n");
            render_last(nodes, *input, prefix, out);
        },
        PlanNode::Zip { left, right, label, .. } => {
            out.append(label);
            out.append("\n");
            out.append(prefix);
            out.append("├─ ");
            let inner = extended(prefix, "│  ");
            render(nodes, *left, inner.as_str(), out);
            render_last(nodes, *right, prefix, out);
        },
        PlanNode::Reduce { input, label, .. } => {
            out.append(label);
            out.append("\n");
            render_last(nodes, *input, prefix, out);
        },
    }
    assert(out@ =~= old(out)@ + crate::lazy::lines(node_outline(nodes@, id as nat), prefix@));
}

/// Appends the lines of the last (or only) input of a node.
fn render_last(nodes: &Vec<PlanNode>, id: usize, prefix: &str, out: &mut String)
    requires
        tree(nodes@, id as nat),
    ensures
        final(out)@ == old(out)@ + prefix@ + "└─ "@ + crate::lazy::lines(
            node_outline(nodes@, id as nat),
            prefix@ + "   "@,
        ),
    decreases id, 1nat,
{
    out.append(prefix);
    out.append("└─ ");
    let inner = extended(prefix, "   ");
    render(nodes, id, inner.as_str(), out);
}

/// Node `consumer` takes node `child` as an input.
pub open spec fn feeds(nodes: Seq<PlanNode>, child: int, consumer: int) -> bool {
    match nodes[consumer] {
        PlanNode::Source { .. } => false,
        PlanNode::Apply { input, .. } => input == child,
        PlanNode::Zip { left, right, .. } => left == child || right == child,
        PlanNode::Reduce { input, .. } => input == child,
    }
}

/// The inputs of the nodes under a node stand under that node.
pub proof fn lemma_inputs_within(nodes: Seq<PlanNode>, id: nat, child: int, consumer: int)
    requires
        tree(nodes, id),
        span(nodes, id) <= consumer <= id,
        feeds(nodes, child, consumer),
    ensures
        span(nodes, id) <= child < consumer,
    decreases id,
{
    match nodes[id as int] {
        PlanNode::Source { .. } => {},
        PlanNode::Apply { input, .. } => {
            lemma_span(nodes, input as nat);
            if consumer < id {
                lemma_inputs_within(nodes, input as nat, child, consumer);
            }
        },
        PlanNode::Zip { left, right, .. } => {
            lemma_span(nodes, left as nat);
            lemma_span(nodes, right as nat);
            if consumer <= left {
                lemma_inputs_within(nodes, left as nat, child, consumer);
            } else if consumer < id {
                lemma_inputs_within(nodes, right as nat, child, consumer);
            }
        },
        PlanNode::Reduce { input, .. } => {
            lemma_span(nodes, input as nat);
            if consumer < id {
                lemma_inputs_within(nodes, input as nat, child, consumer);
            }
        },
    }
}

/// Every node under a node feeds exactly one consumer; the node itself feeds
/// none of those under it.
pub proof fn lemma_one_consumer(nodes: Seq<PlanNode>, id: nat, child: int)
    requires
        tree(nodes, id),
        span(nodes, id) <= child < id,
    ensures
        exists|c: int| span(nodes, id) <= c <= id && #[trigger] feeds(nodes, child, c),
        forall|c: int, e: int|
            span(nodes, id) <= c <= id && span(nodes, id) <= e <= id && #[trigger] feeds(
                nodes,
                child,
                c,
            ) && #[trigger] feeds(nodes, child, e) ==> c == e,
    decreases id,
{
    lemma_span(nodes, id);
    assert forall|c: int| span(nodes, id) <= c <= id && #[trigger] feeds(nodes, child, c) implies c
        > child by {
        lemma_inputs_within(nodes, id, child, c);
    }
    match nodes[id as int] {
        PlanNode::Source { .. } => {},
        PlanNode::Apply { input, .. } => {
            if child < input {
                lemma_one_consumer(nodes, input as nat, child);
            } else {
                assert(feeds(nodes, child, id as int));
            }
        },
        PlanNode::Zip { left, right, .. } => {
            lemma_span(nodes, left as nat);
            lemma_span(nodes, right as nat);
            assert forall|c: int| left < c <= right && #[trigger] feeds(nodes, child, c) implies left
                < child by {
                lemma_inputs_within(nodes, right as nat, child, c);
            }
            assert forall|c: int|
                span(nodes, left as nat) <= c <= left && #[trigger] feeds(
                    nodes,
                    child,
                    c,
                ) implies child < left by {
                lemma_inputs_within(nodes, left as nat, child, c);
            }
            if child < left {
                lemma_one_consumer(nodes, left as nat, child);
            } else if left < child < right {
                lemma_one_consumer(nodes, right as nat, child);
            } else {
                assert(feeds(nodes, child, id as int));
            }
        },
        PlanNode::Reduce { input, .. } => {
            if child < input {
                lemma_one_consumer(nodes, input as nat, child);
            } else {
                assert(feeds(nodes, child, id as int));
            }
        },
    }
}

/// How much a plan hands out.
pub struct Extent {
    /// The number of elements.
    pub count: usize,
    /// The number of elements in the first batch, the largest.
    pub first: usize,
    /// The two sides of every binary operation are equally long.
    pub matched: bool,
    /// Every batch that has to be allocated can be.
    pub fits: bool,
}

/// No batch is empty and the first one is the largest.
pub open spec fn peaked(layout: Seq<nat>) -> bool {
    &&& crate::flow::positive(layout)
    &&& forall|i: int| 0 <= i < layout.len() ==> #[trigger] layout[i] <= layout[0]
}

impl Extent {
    /// The extent is that of a flow.
    pub open spec fn measures(self, flow: Flow<Seq<u8>>) -> bool {
        &&& self.count == flow.count()
        &&& self.first == if flow.layout.len() == 0 {
            0
        } else {
            flow.layout[0]
        }
        &&& self.matched == flow.matched
        &&& self.fits == flow.fits
        &&& peaked(flow.layout)
    }
}

proof fn lemma_even_peaked(len: nat, per_batch: nat)
    requires
        per_batch > 0,
    ensures
        peaked(crate::flow::even_layout(len, per_batch)),
        crate::flow::even_layout(len, per_batch).len() == 0 <==> len == 0,
        len > 0 ==> crate::flow::even_layout(len, per_batch)[0] == if len <= per_batch {
            len
        } else {
            per_batch
        },
{
    let layout = crate::flow::even_layout(len, per_batch);
    crate::flow::lemma_even_layout(len, per_batch);
    assert forall|i: int| 0 <= i < layout.len() implies #[trigger] layout[i] <= layout[0] by {
        crate::laws::law_source_batches_are_bounded(len, per_batch, i);
    }
}

proof fn lemma_merged_peaked(left: Seq<nat>, right: Seq<nat>)
    requires
        peaked(left),
        peaked(right),
    ensures
        peaked(crate::flow::merged_layout(left, right)),
{
    let layout = crate::flow::merged_layout(left, right);
    crate::flow::lemma_merged_layout(left, right);
    assert forall|i: int| 0 <= i < layout.len() implies #[trigger] layout[i] <= layout[0] by {
        crate::laws::law_zipped_batches_are_bounded(left, right, left[0], right[0], i);
    }
}

/// There is room for every batch if there is for the largest.
proof fn lemma_largest_fits(layout: Seq<nat>, form: Form)
    requires
        peaked(layout),
    ensures
        crate::flow::all_fit(layout, crate::stream::room_for(form)) <==> layout.len() == 0
            || crate::ops::room(form, layout[0]),
{
    if layout.len() > 0 {
        if crate::ops::room(form, layout[0]) {
            assert forall|i: int| 0 <= i < layout.len() implies (crate::stream::room_for(form))(
                #[trigger] layout[i],
            ) by {
                let n = layout[i];
                let m = layout[0];
                assert(n * form.size <= m * form.size) by (nonlinear_arith)
                    requires
                        n <= m,
                ;
            }
        } else {
            assert(!(crate::stream::room_for(form))(layout[0]));
        }
    }
}

/// Returns `true` if a batch of `n` elements can be allocated.
pub fn has_room(size: usize, align: usize, n: usize) -> (held: bool)
    ensures
        held == crate::ops::room(Form { size: size as nat, align: align as nat }, n as nat),
{
    let largest: usize = if align <= crate::storage::STORAGE_ALIGN {
        crate::storage::STORAGE_ALIGN
    } else {
        align
    };
    match n.checked_mul(size) {
        Some(bytes) => bytes <= isize::MAX as usize && largest - 1 <= isize::MAX as usize - bytes,
        None => false,
    }
}

fn measure_source(len: usize, per_batch: usize) -> (first: usize)
    requires
        per_batch > 0,
    ensures
        first == if crate::flow::even_layout(len as nat, per_batch as nat).len() == 0 {
            0
        } else {
            crate::flow::even_layout(len as nat, per_batch as nat)[0]
        },
        peaked(crate::flow::even_layout(len as nat, per_batch as nat)),
        crate::flow::total(crate::flow::even_layout(len as nat, per_batch as nat)) == len,
{
    proof {
        lemma_even_peaked(len as nat, per_batch as nat);
        crate::flow::lemma_even_layout(len as nat, per_batch as nat);
    }
    if len <= per_batch {
        len
    } else {
        per_batch
    }
}

/// Measures what node `id` hands out, without executing anything.
pub fn measure(
    nodes: &Vec<PlanNode>,
    id: usize,
    batch_bytes: usize,
    opened: &Vec<Result<Storage, String>>,
) -> (extent: Extent)
    requires
        tree(nodes@, id as nat),
        forall|i: int|
            0 <= i < nodes@.len() && (#[trigger] nodes@[i]).is_scan() ==> nodes@[i].slot()
                < opened@.len(),
        forall|i: int|
            0 <= i < opened@.len() ==> ((#[trigger] opened@[i]) matches Ok(storage)
                ==> storage.wf()),
    ensures
        extent.measures(node_flow(nodes@, id as nat, batch_bytes as nat, opened@)),
    decreases id,
{
    let ghost flow = node_flow(nodes@, id as nat, batch_bytes as nat, opened@);
    match &nodes[id] {
        PlanNode::Source { kind, size, align, .. } => {
            let per_batch: usize = elems_per_batch(batch_bytes, *size);
            match kind {
                SourceKind::Held { storage } => {
                    let len: usize = storage.len() / *size;
                    let first: usize = measure_source(len, per_batch);
                    Extent { count: len, first, matched: true, fits: true }
                },
                SourceKind::Scan { slot } => {
                    assert(nodes@[id as int].is_scan());
                    let len: usize = match &opened[*slot] {
                        Ok(storage) => storage.len() / *size,
                        Err(_) => 0,
                    };
                    let first: usize = measure_source(len, per_batch);
                    proof {
                        vstd::arithmetic::div_mod::lemma_div_basics_1(*size as int);
                    }
                    Extent { count: len, first, matched: true, fits: true }
                },
                SourceKind::Generated { len, .. } => {
                    let first: usize = measure_source(*len, per_batch);
                    let fits: bool = first == 0 || has_room(*size, *align, first);
                    proof {
                        lemma_largest_fits(flow.layout, nodes@[id as int].form());
                    }
                    Extent { count: *len, first, matched: true, fits }
                },
            }
        },
        PlanNode::Apply { input, size, align, .. } => {
            let inner = measure(nodes, *input, batch_bytes, opened);
            let fits: bool = inner.fits && (inner.first == 0 || has_room(
                *size,
                *align,
                inner.first,
            ));
            proof {
                lemma_largest_fits(flow.layout, nodes@[id as int].form());
            }
            Extent { count: inner.count, first: inner.first, matched: inner.matched, fits }
        },
        PlanNode::Zip { left, right, size, align, .. } => {
            let l = measure(nodes, *left, batch_bytes, opened);
            let r = measure(nodes, *right, batch_bytes, opened);
            let ghost lf = node_flow(nodes@, *left as nat, batch_bytes as nat, opened@);
            let ghost rf = node_flow(nodes@, *right as nat, batch_bytes as nat, opened@);
            proof {
                crate::flow::lemma_merged_layout(lf.layout, rf.layout);
                crate::flow::lemma_positive_total(lf.layout);
                crate::flow::lemma_positive_total(rf.layout);
                lemma_merged_peaked(lf.layout, rf.layout);
                lemma_largest_fits(flow.layout, nodes@[id as int].form());
            }
            let count: usize = if l.count <= r.count {
                l.count
            } else {
                r.count
            };
            let first: usize = if l.first <= r.first {
                l.first
            } else {
                r.first
            };
            let fits: bool = l.fits && r.fits && (first == 0 || has_room(*size, *align, first));
            Extent { count, first, matched: l.matched && r.matched && l.count == r.count, fits }
        },
        PlanNode::Reduce { input, size, align, .. } => {
            let inner = measure(nodes, *input, batch_bytes, opened);
            let n: usize = if inner.matched {
                1
            } else {
                0
            };
            proof {
                crate::flow::lemma_total_front(1, Seq::empty());
                assert(seq![1nat] + Seq::<nat>::empty() =~= seq![1nat]);
            }
            Extent {
                count: n,
                first: n,
                matched: inner.matched,
                fits: inner.fits && has_room(*size, *align, 1),
            }
        },
    }
}

} // verus!
