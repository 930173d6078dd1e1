//! The lazy, streaming execution engine.
//!
//! A [`LazyTensor`] is a **plan**: a description of computations to run later,
//! built by chaining methods. The rule is uniform:
//!
//! > **Nothing executes until [`LazyTensor::collect`] is called, or an
//! > [`Execution`] is started.** Every other method, including reductions like
//! > [`LazyTensor::sum`] and binary operations like `a + b`, only extends the
//! > plan.
//!
//! Execution is *batched*: each source produces small contiguous batches (sized
//! in bytes, see [`LazyTensor::with_batch_bytes`]), each operator transforms
//! batches into new batches, and the terminal consumes them one by one. At any
//! instant only a few batches are resident, so memory stays bounded regardless
//! of the source size.
//!
//! What a plan means is its [`Flow`](crate::flow::Flow): the batches that its
//! executions hand out and the elements in them. Files that a plan scans are
//! opened when it is executed, so its meaning depends on what became of that.
//!
//! The plan is data, an arena of nodes, so that it can be inspected
//! ([`LazyTensor::explain`]). The public API is fully typed; inside, each
//! operation works on batches whose types were checked at construction.

use crate::flow::Flow;
use crate::ops::{
    AddElements, GenerateFn, Generator, MapFn, Mapper, MulElements, Reducer, SubElements,
    SumElements, ZipFn, Zipper,
};
use crate::plan::{
    build_stream, measure, open_sources, render, sources_open, PlanNode, SourceKind,
};
use crate::storage::Storage;
use crate::stream::BatchStream;
use crate::summand::Summand;
use crate::tensor::{can_hold, Tensor, TensorFileError};
use crate::text::push_decimal;
use crate::view::Element;
use std::marker::PhantomData;
use std::ops::{Add, Mul, Sub};
use vstd::prelude::*;
use vstd::std_specs::ops::*;
use vstd::string::*;

verus! {

/// Default target size of a batch, in bytes (a few MiB: large enough to
/// amortize per-batch overhead, small enough to stay cache-friendly and keep
/// memory bounded).
pub const DEFAULT_BATCH_BYTES: usize = 4 * 1024 * 1024;

/// What became of opening the files that a plan scans, in order: the mapped
/// bytes, or the reason why a file could not be opened.
pub type Files = Seq<Result<Storage, String>>;

/// A plan as its description shows it: the operations, each over its inputs.
pub enum Outline {
    /// A source.
    Leaf(Seq<char>),
    /// An operation on one input.
    One(Seq<char>, Box<Outline>),
    /// An operation on two inputs.
    Two(Seq<char>, Box<Outline>, Box<Outline>),
}

/// How many elements of `size` bytes fit the byte target of a batch, at least
/// one.
pub open spec fn batch_elems(batch_bytes: nat, size: nat) -> nat {
    if batch_bytes / size == 0 {
        1
    } else {
        batch_bytes / size
    }
}

/// What keeps an opened file from being read as elements of a size and an
/// alignment, if anything does.
pub open spec fn file_error(
    opened: Result<Storage, String>,
    size: nat,
    align: nat,
) -> Option<TensorFileError> {
    match opened {
        Err(reason) => Some(TensorFileError::Io(reason)),
        Ok(storage) => match crate::view::layout_error(storage, size, align) {
            Some(error) => Some(TensorFileError::View(error)),
            None => None,
        },
    }
}

/// A plan drawn as a tree: one line per node, each with a line break at its
/// end, the inputs indented under `prefix` with tree connectors.
pub open spec fn lines(outline: Outline, prefix: Seq<char>) -> Seq<char>
    decreases outline,
{
    match outline {
        Outline::Leaf(label) => label + "\n"@,
        Outline::One(label, input) => label + "\n"@ + prefix + "└─ "@ + lines(
            *input,
            prefix + "   "@,
        ),
        Outline::Two(label, left, right) => label + "\n"@ + prefix + "├─ "@ + lines(
            *left,
            prefix + "│  "@,
        ) + prefix + "└─ "@ + lines(*right, prefix + "   "@),
    }
}

/// The number of operations and sources of a plan.
pub open spec fn outline_size(outline: Outline) -> nat
    decreases outline,
{
    match outline {
        Outline::Leaf(_) => 1,
        Outline::One(_, input) => 1 + outline_size(*input),
        Outline::Two(_, left, right) => 1 + outline_size(*left) + outline_size(*right),
    }
}

/// The label of the last operation of a plan, or of its only source.
pub open spec fn root_label(outline: Outline) -> Seq<char> {
    match outline {
        Outline::Leaf(label) => label,
        Outline::One(label, _) => label,
        Outline::Two(label, _, _) => label,
    }
}

/// A text holds no line break.
pub open spec fn one_line(text: Seq<char>) -> bool {
    forall|i: int| 0 <= i < text.len() ==> #[trigger] text[i] != '\n'
}

/// No label of a plan holds a line break.
pub open spec fn one_line_labels(outline: Outline) -> bool
    decreases outline,
{
    match outline {
        Outline::Leaf(label) => one_line(label),
        Outline::One(label, input) => one_line(label) && one_line_labels(*input),
        Outline::Two(label, left, right) => one_line(label) && one_line_labels(*left)
            && one_line_labels(*right),
    }
}

/// The number of line breaks in a text.
pub open spec fn line_breaks(text: Seq<char>) -> nat {
    text.filter(|c: char| c == '\n').len()
}

proof fn lemma_line_breaks_add(a: Seq<char>, b: Seq<char>)
    ensures
        line_breaks(a + b) == line_breaks(a) + line_breaks(b),
{
    Seq::filter_distributes_over_add(a, b, |c: char| c == '\n');
}

proof fn lemma_no_line_breaks(text: Seq<char>)
    requires
        one_line(text),
    ensures
        line_breaks(text) == 0,
    decreases text.len(),
{
    reveal(Seq::filter);
    if text.len() > 0 {
        lemma_no_line_breaks(text.drop_last());
    }
}

/// A drawing ends in a line break.
pub proof fn lemma_last_line_break(outline: Outline, prefix: Seq<char>)
    ensures
        lines(outline, prefix).len() > 0,
        lines(outline, prefix).last() == '\n',
    decreases outline,
{
    reveal_strlit("\n");
    match outline {
        Outline::Leaf(_) => {},
        Outline::One(_, input) => lemma_last_line_break(*input, prefix + "   "@),
        Outline::Two(_, _, right) => lemma_last_line_break(*right, prefix + "   "@),
    }
}

/// A plan is drawn on one line per node, the last operation by itself on the
/// first line, and every line ends in a line break.
pub proof fn law_one_line_per_node(outline: Outline, prefix: Seq<char>)
    requires
        one_line_labels(outline),
        one_line(prefix),
    ensures
        line_breaks(lines(outline, prefix)) == outline_size(outline),
        (root_label(outline) + "\n"@).is_prefix_of(lines(outline, prefix)),
        lines(outline, prefix).last() == '\n',
    decreases outline,
{
    reveal_strlit("\n");
    reveal_strlit("└─ ");
    reveal_strlit("├─ ");
    reveal_strlit("   ");
    reveal_strlit("│  ");
    reveal(Seq::filter);
    lemma_last_line_break(outline, prefix);
    assert("\n"@ =~= seq!['\n']);
    assert(line_breaks("\n"@) == 1) by {
        assert("\n"@.drop_last() =~= Seq::empty());
        lemma_no_line_breaks(Seq::empty());
    }
    lemma_no_line_breaks(prefix);
    lemma_no_line_breaks("└─ "@);
    lemma_no_line_breaks("├─ "@);
    let label = root_label(outline);
    lemma_no_line_breaks(label);
    lemma_line_breaks_add(label, "\n"@);
    match outline {
        Outline::Leaf(_) => {},
        Outline::One(_, input) => {
            law_one_line_per_node(*input, prefix + "   "@);
            let below = lines(*input, prefix + "   "@);
            lemma_line_breaks_add(label + "\n"@, prefix);
            lemma_line_breaks_add(label + "\n"@ + prefix, "└─ "@);
            lemma_line_breaks_add(label + "\n"@ + prefix + "└─ "@, below);
        },
        Outline::Two(_, left, right) => {
            law_one_line_per_node(*left, prefix + "│  "@);
            law_one_line_per_node(*right, prefix + "   "@);
            let upper = lines(*left, prefix + "│  "@);
            let lower = lines(*right, prefix + "   "@);
            lemma_line_breaks_add(label + "\n"@, prefix);
            lemma_line_breaks_add(label + "\n"@ + prefix, "├─ "@);
            lemma_line_breaks_add(label + "\n"@ + prefix + "├─ "@, upper);
            let half = label + "\n"@ + prefix + "├─ "@ + upper;
            lemma_line_breaks_add(half, prefix);
            lemma_line_breaks_add(half + prefix, "└─ "@);
            lemma_line_breaks_add(half + prefix + "└─ "@, lower);
        },
    }
}

/// A text with each line break replaced by a space.
pub open spec fn unbroken(text: Seq<char>) -> Seq<char> {
    text.map_values(
        |c: char|
            if c == '\n' {
                ' '
            } else {
                c
            },
    )
}

/// Replaces each line break by a space.
fn without_breaks(text: &str) -> (line: String)
    ensures
        line@ == unbroken(text@),
{
    let mut line = String::new();
    let len: usize = text.unicode_len();
    let mut i: usize = 0;
    while i < len
        invariant
            i <= len,
            len == text@.len(),
            line@ == unbroken(text@.take(i as int)),
        decreases len - i,
    {
        if text.get_char(i) == '\n' {
            proof {
                reveal_strlit(" ");
            }
            line.append(" ");
        } else {
            line.append(text.substring_char(i, i + 1));
        }
        assert(line@ =~= unbroken(text@.take(i + 1)));
        i = i + 1;
    }
    assert(text@.take(i as int) =~= text@);
    line
}

/// The reason a plan failed to execute.
#[derive(Debug)]
pub enum EngineError {
    /// Opening or validating a source failed.
    Source(TensorFileError),
    /// Writing the sink failed, for the reason given.
    Io(String),
    /// The sink path refers to a file the plan is scanning; executing would
    /// overwrite the source while reading it.
    SinkIntoSource,
    /// A binary operation combined two plans that produced different numbers
    /// of elements (detected during execution, when one side ends before the
    /// other).
    LengthMismatch,
}

impl EngineError {
    /// The text that describes the error.
    pub open spec fn message(self) -> Seq<char> {
        match self {
            EngineError::Source(error) => "cannot open plan source: "@ + error.message(),
            EngineError::Io(reason) => "sink failed: "@ + reason@,
            EngineError::SinkIntoSource => "cannot sink into a file the plan is scanning"@,
            EngineError::LengthMismatch =>
                "length mismatch: one side of a binary operation ended before the other"@,
        }
    }

    /// Describes the error.
    #[must_use]
    pub fn to_string(&self) -> (text: String)
        ensures
            text@ == self.message(),
    {
        let mut text = String::new();
        match self {
            EngineError::Source(error) => {
                text.append("cannot open plan source: ");
                let reason = error.to_string();
                text.append(reason.as_str());
            },
            EngineError::Io(reason) => {
                text.append("sink failed: ");
                text.append(reason.as_str());
            },
            EngineError::SinkIntoSource => {
                text.append("cannot sink into a file the plan is scanning");
            },
            EngineError::LengthMismatch => {
                text.append(
                    "length mismatch: one side of a binary operation ended before the other",
                );
            },
        }
        assert(text@ =~= self.message());
        text
    }

    /// Describes the error that caused this one, if one did.
    #[must_use]
    pub fn source(&self) -> (text: Option<String>)
        ensures
            match *self {
                EngineError::Source(error) => text matches Some(t) && t@ == error.message(),
                EngineError::Io(reason) => text matches Some(t) && t@ == reason@,
                _ => text is None,
            },
    {
        match self {
            EngineError::Source(error) => Some(error.to_string()),
            EngineError::Io(reason) => {
                let mut text = String::new();
                text.append(reason.as_str());
                assert(text@ =~= reason@);
                Some(text)
            },
            EngineError::SinkIntoSource | EngineError::LengthMismatch => None,
        }
    }
}

impl From<TensorFileError> for EngineError {
    fn from(error: TensorFileError) -> (converted: Self) {
        EngineError::Source(error)
    }
}

impl vstd::std_specs::convert::FromSpecImpl<TensorFileError> for EngineError {
    open spec fn obeys_from_spec() -> bool {
        true
    }

    open spec fn from_spec(error: TensorFileError) -> Self {
        EngineError::Source(error)
    }
}

/// The quoted and escaped form in which a path is shown.
pub uninterp spec fn shown_path(path: Seq<char>) -> Seq<char>;

/// Calls the `Debug` formatting of `std::path::Path::display`: a path is shown
/// quoted and escaped, in a way that depends on the path alone.
#[verifier::external_body]
fn show_path(path: &str) -> (text: String)
    ensures
        text@ == shown_path(path@),
{
    format!("{:?}", std::path::Path::new(path).display())
}

/// The indices that `f` can be called with.
pub open spec fn index_accepts<T, F: Fn(usize) -> T>(f: F) -> spec_fn(nat) -> bool {
    |i: nat| call_requires(f, (i as usize,))
}

/// What `f` returns for an index.
pub open spec fn index_gives<T, F: Fn(usize) -> T>(f: F) -> spec_fn(nat, T) -> bool {
    |i: nat, x: T| call_ensures(f, (i as usize,), x)
}

/// The elements that `f` can be called with.
pub open spec fn fn_accepts<T, U, F: Fn(T) -> U>(f: F) -> spec_fn(T) -> bool {
    |x: T| call_requires(f, (x,))
}

/// What `f` returns for an element.
pub open spec fn fn_gives<T, U, F: Fn(T) -> U>(f: F) -> spec_fn(T, U) -> bool {
    |x: T, y: U| call_ensures(f, (x,), y)
}

/// The pairs of elements that `f` can be called with.
pub open spec fn pair_accepts<T, U, V, F: Fn(T, U) -> V>(f: F) -> spec_fn(T, U) -> bool {
    |x: T, y: U| call_requires(f, (x, y))
}

/// What `f` returns for a pair of elements.
pub open spec fn pair_gives<T, U, V, F: Fn(T, U) -> V>(f: F) -> spec_fn(T, U, V) -> bool {
    |x: T, y: U, z: V| call_ensures(f, (x, y), z)
}

/// A batch of elements `T` can be allocated.
pub open spec fn room_of<T>() -> spec_fn(nat) -> bool {
    |n: nat| crate::tensor::holdable::<T>(n)
}

/// The flow of a streaming sum.
pub open spec fn summed<T: Summand>(input: Flow<T>) -> Flow<T> {
    crate::flow::reduced(input, T::nil(), crate::kernel::sum_step::<T>(), room_of::<T>())
}

/// A lazy computation plan producing elements of type `T`.
///
/// Built by [`scan_file`], [`generate`] or [`Tensor::lazy`]; extended with
/// operations like [`LazyTensor::map`], reductions like [`LazyTensor::sum`],
/// and binary operators (`a + b`, `a - b`, `a * b`, [`LazyTensor::zip_with`]);
/// executed by [`collect`](LazyTensor::collect) or
/// [`start`](LazyTensor::start).
#[must_use]
pub struct LazyTensor<T: Element> {
    /// Node arena, a tree in postorder.
    nodes: Vec<PlanNode>,
    /// The node producing this plan's output.
    root: usize,
    batch_bytes: usize,
    /// The files that the plan scans.
    paths: Vec<String>,
    _out: PhantomData<T>,
}

impl<T: Element> LazyTensor<T> {
    /// The plan is a tree whose root produces elements `T`.
    pub closed spec fn wf(&self) -> bool {
        &&& self.nodes@.len() > 0
        &&& self.root == self.nodes@.len() - 1
        &&& crate::plan::tree(self.nodes@, self.root as nat)
        &&& crate::plan::span(self.nodes@, self.root as nat) == 0
        &&& self.nodes@[self.root as int].form() == crate::ops::form_of::<T>()
        &&& forall|i: int|
            0 <= i < self.nodes@.len() && (#[trigger] self.nodes@[i]).is_scan()
                ==> self.nodes@[i].slot() < self.paths@.len()
        &&& forall|batch_bytes: nat, files: Files|
            crate::flow::sized(
                #[trigger] self.flow(batch_bytes, files),
                crate::view::elem_size::<T>(),
            )
    }

    /// What the plan's executions hand out, by the bytes of the elements.
    pub closed spec fn flow(&self, batch_bytes: nat, files: Files) -> Flow<Seq<u8>> {
        crate::plan::node_flow(self.nodes@, self.root as nat, batch_bytes, files)
    }

    /// What the plan's executions hand out with a target batch size, where
    /// `files` is what became of opening the files it scans.
    pub open spec fn meaning(&self, batch_bytes: nat, files: Files) -> Flow<T> {
        crate::flow::typed::<T>(self.flow(batch_bytes, files))
    }

    /// The target batch size in bytes.
    pub closed spec fn setting(&self) -> nat {
        self.batch_bytes as nat
    }

    /// The files that the plan scans, in the order in which they are opened.
    pub closed spec fn paths(&self) -> Seq<Seq<char>> {
        self.paths@.map_values(|path: String| path@)
    }

    /// The operations of the plan.
    pub closed spec fn outline(&self) -> Outline {
        crate::plan::node_outline(self.nodes@, self.root as nat)
    }

    /// What keeps the first source that cannot be opened from being opened.
    pub closed spec fn failure(&self, files: Files) -> Option<TensorFileError> {
        crate::plan::first_failure(self.nodes@, files, 0, self.nodes@.len() as int)
    }

    /// The number of nodes of the plan.
    pub closed spec fn node_count(&self) -> nat {
        self.nodes@.len()
    }

    /// No reduction of the plan depends on how its input is cut into batches.
    pub closed spec fn batch_free(&self) -> bool {
        crate::plan::batch_free(self.nodes@, self.root as nat)
    }

    /// The size in bytes of the smallest elements among those of the sources.
    pub closed spec fn narrowest(&self) -> nat {
        crate::plan::narrowest(self.nodes@, self.root as nat)
    }

    /// Node `consumer` of the plan takes node `child` as an input.
    pub closed spec fn feeds(&self, child: int, consumer: int) -> bool {
        crate::plan::feeds(self.nodes@, child, consumer)
    }

    /// A plan is a tree: the inputs of a node stand before it, and every node
    /// but the last, which produces the output, feeds exactly one consumer.
    pub proof fn law_every_node_feeds_one_consumer(&self, child: int)
        requires
            self.wf(),
            0 <= child < self.node_count(),
        ensures
            child < self.node_count() - 1 ==> exists|c: int|
                0 <= c < self.node_count() && #[trigger] self.feeds(child, c),
            forall|c: int|
                0 <= c < self.node_count() && #[trigger] self.feeds(child, c) ==> child < c,
            forall|c: int, e: int|
                0 <= c < self.node_count() && 0 <= e < self.node_count() && #[trigger] self.feeds(
                    child,
                    c,
                ) && #[trigger] self.feeds(child, e) ==> c == e,
    {
        assert forall|c: int|
            0 <= c < self.node_count() && #[trigger] self.feeds(child, c) implies child < c by {
            crate::plan::lemma_inputs_within(self.nodes@, self.root as nat, child, c);
        }
        if child < self.node_count() - 1 {
            crate::plan::lemma_one_consumer(self.nodes@, self.root as nat, child);
            let c = choose|c: int|
                0 <= c <= self.root && #[trigger] crate::plan::feeds(self.nodes@, child, c);
            assert(self.feeds(child, c));
        }
    }

    /// The setting of the batch size is invisible: a plan whose reductions, if it
    /// has any, are sums of integers applies its functions to elements that they
    /// accept with one setting if it does with another, succeeds if it does, and
    /// hands out the same elements.
    pub proof fn law_batch_size_is_invisible(&self, batch_bytes: nat, other: nat, files: Files)
        requires
            self.wf(),
            self.batch_free(),
        ensures
            crate::laws::same_elements(
                self.meaning(batch_bytes, files),
                self.meaning(other, files),
            ),
            self.meaning(batch_bytes, files).safe == self.meaning(other, files).safe,
            forall|items: Seq<T>| #[trigger]
                self.meaning(batch_bytes, files).yields(items) <==> self.meaning(
                    other,
                    files,
                ).yields(items),
    {
        crate::plan::lemma_batching_is_invisible(
            self.nodes@,
            self.root as nat,
            batch_bytes,
            other,
            files,
        );
        assert(self.meaning(batch_bytes, files).emits =~= self.meaning(other, files).emits);
    }

    /// Memory stays bounded: no batch of a plan is empty, and none holds more
    /// elements than the setting allows of the smallest among those of the
    /// sources.
    pub proof fn law_batches_are_bounded(&self, batch_bytes: nat, files: Files, i: int)
        requires
            self.wf(),
            0 <= i < self.meaning(batch_bytes, files).layout.len(),
        ensures
            0 < self.meaning(batch_bytes, files).layout[i] <= batch_elems(
                batch_bytes,
                self.narrowest(),
            ),
    {
        crate::plan::lemma_positive_batches(self.nodes@, self.root as nat, batch_bytes, files);
        crate::plan::lemma_bounded_batches(self.nodes@, self.root as nat, batch_bytes, files);
    }

    /// The outline of a plan has an entry for each node.
    pub proof fn law_outline_size(&self)
        requires
            self.wf(),
        ensures
            outline_size(self.outline()) == self.node_count(),
    {
        crate::plan::lemma_outline_size(self.nodes@, self.root as nat);
    }

    /// A plan of one source.
    fn of_source(label: String, kind: SourceKind, paths: Vec<String>) -> (plan: Self)
        requires
            kind matches SourceKind::Held { storage } ==> storage.wf() && storage.viewable(
                crate::view::elem_size::<T>(),
                crate::view::elem_align::<T>(),
            ),
            kind matches SourceKind::Scan { slot } ==> slot < paths@.len(),
            kind matches SourceKind::Generated { len, op } ==> op.form() == crate::ops::form_of::<
                T,
            >(),
        ensures
            plan.wf(),
            plan.setting() == DEFAULT_BATCH_BYTES,
            plan.node_count() == 1,
            plan.batch_free(),
            plan.narrowest() == crate::view::elem_size::<T>(),
            plan.paths() == paths@.map_values(|path: String| path@),
            plan.outline() == Outline::Leaf(label@),
            forall|files: Files| #[trigger]
                plan.failure(files) == match kind {
                    SourceKind::Scan { slot } => file_error(
                        files[slot as int],
                        crate::view::elem_size::<T>(),
                        crate::view::elem_align::<T>(),
                    ),
                    _ => None,
                },
            forall|batch_bytes: nat, files: Files| #[trigger]
                plan.flow(batch_bytes, files) == crate::plan::source_flow(
                    kind,
                    crate::view::elem_size::<T>(),
                    batch_bytes,
                    files,
                ),
    {
        proof {
            T::lemma_size();
            broadcast use vstd::layout::align_properties;
            broadcast use vstd::layout::align_nonzero;

        }
        let size: usize = core::mem::size_of::<T>();
        let align: usize = core::mem::align_of::<T>();
        let ghost node = PlanNode::Source { label, kind, size, align };
        let mut nodes: Vec<PlanNode> = Vec::new();
        nodes.push(PlanNode::Source { label, kind, size, align });
        let plan = LazyTensor {
            nodes,
            root: 0,
            batch_bytes: DEFAULT_BATCH_BYTES,
            paths,
            _out: PhantomData,
        };
        proof {
            assert(plan.nodes@ =~= seq![node]);
            assert forall|files: Files| #[trigger] plan.failure(files) == node.failure(files) by {
                reveal_with_fuel(crate::plan::first_failure, 2);
            }
            assert forall|batch_bytes: nat, files: Files| crate::flow::sized(
                #[trigger] plan.flow(batch_bytes, files),
                crate::view::elem_size::<T>(),
            ) by {
                match kind {
                    SourceKind::Held { storage } => {
                        crate::flow::lemma_typed_listed::<T>(
                            storage@,
                            batch_elems(batch_bytes, size as nat),
                        );
                    },
                    SourceKind::Scan { slot } => {
                        crate::flow::lemma_typed_listed::<T>(
                            crate::plan::content(files, slot as int),
                            batch_elems(batch_bytes, size as nat),
                        );
                    },
                    SourceKind::Generated { len, op } => {
                        crate::stream::lemma_generate_sized(
                            op,
                            len as nat,
                            batch_elems(batch_bytes, size as nat),
                        );
                    },
                }
            }
        }
        plan
    }
}

/// Creates a lazy plan whose source generates `len` elements with `f(i)`.
///
/// Elements are produced batch by batch during execution; the full sequence
/// never exists in memory at once.
pub fn generate<T: Element>(len: usize, f: impl Fn(usize) -> T + Send + 'static) -> (plan:
    LazyTensor<T>)
    ensures
        plan.wf(),
        plan.setting() == DEFAULT_BATCH_BYTES,
        plan.node_count() == 1,
        plan.batch_free(),
        plan.narrowest() == crate::view::elem_size::<T>(),
        plan.paths() == Seq::<Seq<char>>::empty(),
        plan.outline() == Outline::Leaf(
            "generate(len="@ + crate::text::decimal(len as nat) + ") as "@ + T::type_label(),
        ),
        forall|files: Files| #[trigger] plan.failure(files) is None,
        forall|batch_bytes: nat, files: Files| #[trigger]
            plan.meaning(batch_bytes, files) == crate::flow::generated(
                len as nat,
                batch_elems(batch_bytes, crate::view::elem_size::<T>()),
                index_accepts(f),
                index_gives(f),
                room_of::<T>(),
            ),
        forall|batch_bytes: nat, files: Files|
            (#[trigger] plan.meaning(batch_bytes, files)).safe <==> forall|i: usize|
                i < len ==> #[trigger] call_requires(f, (i,)),
        forall|batch_bytes: nat, files: Files, items: Seq<T>| #[trigger]
            plan.meaning(batch_bytes, files).yields(items) <==> items.len() == len && forall|
                i: usize,
            |
                i < len ==> #[trigger] call_ensures(f, (i,), items[i as int]),
{
    let mut label = String::new();
    label.append("generate(len=");
    push_decimal(&mut label, len as u64);
    label.append(") as ");
    label.append(T::label());
    let made = GenerateFn { f, elem: PhantomData::<T> };
    let op = Generator { op: Box::new(made) };
    proof {
        assert(label@ =~= "generate(len="@ + crate::text::decimal(len as nat) + ") as "@
            + T::type_label());
    }
    let paths: Vec<String> = Vec::new();
    let plan = LazyTensor::<T>::of_source(label, SourceKind::Generated { len, op }, paths);
    proof {
        assert(plan.paths() =~= Seq::<Seq<char>>::empty());
        assert forall|batch_bytes: nat, files: Files| #[trigger]
            plan.meaning(batch_bytes, files) == crate::flow::generated(
                len as nat,
                batch_elems(batch_bytes, crate::view::elem_size::<T>()),
                index_accepts(f),
                index_gives(f),
                room_of::<T>(),
            ) by {
            let per_batch = batch_elems(batch_bytes, crate::view::elem_size::<T>());
            assert(crate::stream::generate_accepts(op) =~= index_accepts(f));
            assert(crate::stream::generate_gives(op) =~= |i: nat, part: Seq<u8>|
                part.len() == crate::view::elem_size::<T>() && (index_gives(f))(
                    i,
                    T::decodes(part),
                ));
            assert(crate::stream::room_for(op.form()) =~= room_of::<T>());
            crate::flow::lemma_typed_generated::<T>(
                len as nat,
                per_batch,
                index_accepts(f),
                index_gives(f),
                room_of::<T>(),
                crate::stream::generate_flow(op, len as nat, per_batch),
            );
        }
        assert forall|batch_bytes: nat, files: Files, items: Seq<T>| #[trigger]
            plan.meaning(batch_bytes, files).yields(items) <==> items.len() == len && forall|
                i: usize,
            |
                i < len ==> #[trigger] call_ensures(f, (i,), items[i as int]) by {
            let per_batch = batch_elems(batch_bytes, crate::view::elem_size::<T>());
            crate::plan_laws::law_generated_by_function(f, len, per_batch, items);
        }
        assert forall|batch_bytes: nat, files: Files|
            (#[trigger] plan.meaning(batch_bytes, files)).safe <==> forall|i: usize|
                i < len ==> #[trigger] call_requires(f, (i,)) by {
            let per_batch = batch_elems(batch_bytes, crate::view::elem_size::<T>());
            crate::plan_laws::law_generated_by_function(f, len, per_batch, Seq::empty());
        }
    }
    plan
}

/// Creates a lazy plan whose source is a raw binary file of `T` elements.
///
/// Nothing is read (the file is not even opened) until the plan is executed.
/// The format is the raw native byte representation of the elements.
pub fn scan_file<T: Element>(path: &str) -> (plan: LazyTensor<T>)
    ensures
        plan.wf(),
        plan.setting() == DEFAULT_BATCH_BYTES,
        plan.node_count() == 1,
        plan.batch_free(),
        plan.narrowest() == crate::view::elem_size::<T>(),
        plan.paths() == seq![path@],
        plan.outline() == Outline::Leaf(
            "scan_file("@ + shown_path(path@) + ") as "@ + T::type_label(),
        ),
        forall|files: Files| #[trigger]
            plan.failure(files) == file_error(
                files[0],
                crate::view::elem_size::<T>(),
                crate::view::elem_align::<T>(),
            ),
        forall|batch_bytes: nat, files: Files|
            (files[0] matches Ok(storage) ==> #[trigger] plan.meaning(batch_bytes, files)
                == crate::flow::listed(
                crate::view::decode_all::<T>(storage@),
                batch_elems(batch_bytes, crate::view::elem_size::<T>()),
            )),
        forall|batch_bytes: nat, files: Files, items: Seq<T>|
            (files[0] matches Ok(storage) ==> (#[trigger] plan.meaning(batch_bytes, files).yields(
                items,
            ) <==> items.len() == storage@.len() / vstd::layout::size_of::<T>() && forall|i: int|
                0 <= i < items.len() ==> #[trigger] items[i] == T::decodes(
                    storage@.subrange(
                        i * vstd::layout::size_of::<T>(),
                        i * vstd::layout::size_of::<T>() + vstd::layout::size_of::<T>(),
                    ),
                ))),
{
    let mut label = String::new();
    label.append("scan_file(");
    let shown = show_path(path);
    label.append(shown.as_str());
    label.append(") as ");
    label.append(T::label());
    let mut copy = String::new();
    copy.append(path);
    let mut paths: Vec<String> = Vec::new();
    paths.push(copy);
    proof {
        assert(label@ =~= "scan_file("@ + shown_path(path@) + ") as "@ + T::type_label());
        assert(copy@ =~= path@);
        assert(paths@.map_values(|path: String| path@) =~= seq![path@]);
    }
    let plan = LazyTensor::<T>::of_source(label, SourceKind::Scan { slot: 0 }, paths);
    proof {
        assert forall|batch_bytes: nat, files: Files|
            (files[0] matches Ok(storage) ==> #[trigger] plan.meaning(batch_bytes, files)
                == crate::flow::listed(
                crate::view::decode_all::<T>(storage@),
                batch_elems(batch_bytes, crate::view::elem_size::<T>()),
            )) by {
            crate::flow::lemma_typed_listed::<T>(
                crate::plan::content(files, 0),
                batch_elems(batch_bytes, crate::view::elem_size::<T>()),
            );
        }
        assert forall|batch_bytes: nat, files: Files, items: Seq<T>|
            (files[0] matches Ok(storage) ==> (#[trigger] plan.meaning(batch_bytes, files).yields(
                items,
            ) <==> items.len() == storage@.len() / vstd::layout::size_of::<T>() && forall|i: int|
                0 <= i < items.len() ==> #[trigger] items[i] == T::decodes(
                    storage@.subrange(
                        i * vstd::layout::size_of::<T>(),
                        i * vstd::layout::size_of::<T>() + vstd::layout::size_of::<T>(),
                    ),
                ))) by {
            crate::plan_laws::law_scanned_elements(
                crate::plan::content(files, 0),
                batch_elems(batch_bytes, crate::view::elem_size::<T>()),
                items,
            );
        }
    }
    plan
}

impl<T: Element> Tensor<T> {
    /// Turns this tensor into a lazy plan sourcing from its elements.
    ///
    /// The tensor is moved into the plan and streamed batch by batch during
    /// execution.
    pub fn lazy(self) -> (plan: LazyTensor<T>)
        requires
            self.wf(),
        ensures
            plan.wf(),
            plan.setting() == DEFAULT_BATCH_BYTES,
            plan.node_count() == 1,
            plan.batch_free(),
            plan.narrowest() == crate::view::elem_size::<T>(),
            plan.paths() == Seq::<Seq<char>>::empty(),
            plan.outline() == Outline::Leaf(
                "tensor(len="@ + crate::text::decimal(self.elements().len()) + ") as "@
                    + T::type_label(),
            ),
            forall|files: Files| #[trigger] plan.failure(files) is None,
            forall|batch_bytes: nat, files: Files| #[trigger]
                plan.meaning(batch_bytes, files) == crate::flow::listed(
                    self.elements(),
                    batch_elems(batch_bytes, crate::view::elem_size::<T>()),
                ),
            forall|batch_bytes: nat, files: Files, items: Seq<T>| #[trigger]
                plan.meaning(batch_bytes, files).yields(items) <==> items == self.elements(),
    {
        let mut label = String::new();
        label.append("tensor(len=");
        push_decimal(&mut label, self.len() as u64);
        label.append(") as ");
        label.append(T::label());
        let ghost elements = self.elements();
        let paths: Vec<String> = Vec::new();
        proof {
            assert(label@ =~= "tensor(len="@ + crate::text::decimal(elements.len()) + ") as "@
                + T::type_label());
            assert(paths@.map_values(|path: String| path@) =~= Seq::<Seq<char>>::empty());
        }
        let storage = self.into_storage();
        let plan = LazyTensor::<T>::of_source(label, SourceKind::Held { storage }, paths);
        proof {
            assert forall|batch_bytes: nat, files: Files| #[trigger]
                plan.meaning(batch_bytes, files) == crate::flow::listed(
                    elements,
                    batch_elems(batch_bytes, crate::view::elem_size::<T>()),
                ) by {
                crate::flow::lemma_typed_listed::<T>(
                    storage@,
                    batch_elems(batch_bytes, crate::view::elem_size::<T>()),
                );
            }
            assert forall|batch_bytes: nat, files: Files, items: Seq<T>| #[trigger]
                plan.meaning(batch_bytes, files).yields(items) <==> items == elements by {
                crate::laws::law_lazy_round_trip(
                    elements,
                    batch_elems(batch_bytes, crate::view::elem_size::<T>()),
                    items,
                );
            }
        }
        plan
    }
}

impl<T: Element> LazyTensor<T> {
    /// Sets the target batch size in bytes (default [`DEFAULT_BATCH_BYTES`]).
    /// Clamped so a batch holds at least one element.
    ///
    /// The setting configures the **whole plan**, wherever it is called in the
    /// chain. When two plans are combined by a binary operation, the smaller of
    /// the two settings wins (the tighter memory bound).
    pub fn with_batch_bytes(self, bytes: usize) -> (plan: Self)
        requires
            self.wf(),
        ensures
            plan.wf(),
            plan.setting() == bytes,
            plan.node_count() == self.node_count(),
            plan.batch_free() == self.batch_free(),
            plan.narrowest() == self.narrowest(),
            plan.paths() == self.paths(),
            plan.outline() == self.outline(),
            forall|files: Files| #[trigger] plan.failure(files) == self.failure(files),
            forall|batch_bytes: nat, files: Files| #[trigger]
                plan.meaning(batch_bytes, files) == self.meaning(batch_bytes, files),
    {
        let plan = LazyTensor {
            nodes: self.nodes,
            root: self.root,
            batch_bytes: bytes,
            paths: self.paths,
            _out: PhantomData,
        };
        proof {
            assert forall|batch_bytes: nat, files: Files| #[trigger]
                plan.flow(batch_bytes, files) == self.flow(batch_bytes, files) by {}
        }
        plan
    }

    /// Appends a node on top of the plan.
    fn extended<U: Element>(self, node: PlanNode) -> (plan: LazyTensor<U>)
        requires
            self.wf(),
            node.form() == crate::ops::form_of::<U>(),
            match node {
                PlanNode::Apply { input, op, .. } => {
                    &&& input == self.root
                    &&& op.form() == node.form()
                    &&& op.takes() == crate::ops::form_of::<T>()
                },
                PlanNode::Reduce { input, op, .. } => {
                    &&& input == self.root
                    &&& op.form() == node.form()
                    &&& op.form() == crate::ops::form_of::<T>()
                },
                _ => false,
            },
            forall|batch_bytes: nat, files: Files|
                crate::flow::sized(
                    match node {
                        PlanNode::Apply { op, .. } => crate::stream::map_flow(
                            op,
                            #[trigger] self.flow(batch_bytes, files),
                        ),
                        PlanNode::Reduce { op, .. } => crate::stream::reduce_flow(
                            op,
                            self.flow(batch_bytes, files),
                        ),
                        _ => arbitrary(),
                    },
                    crate::view::elem_size::<U>(),
                ),
        ensures
            plan.wf(),
            plan.setting() == self.setting(),
            plan.node_count() == self.node_count() + 1,
            plan.batch_free() == (self.batch_free() && (node matches PlanNode::Reduce { op, .. }
                ==> crate::flow::batch_free(op.start(), crate::stream::reduce_step(op)))),
            plan.narrowest() == self.narrowest(),
            plan.paths() == self.paths(),
            plan.outline() == match node {
                PlanNode::Reduce { label, .. } => Outline::One(label@, Box::new(self.outline())),
                _ => Outline::One("map"@, Box::new(self.outline())),
            },
            forall|files: Files| #[trigger] plan.failure(files) == self.failure(files),
            forall|batch_bytes: nat, files: Files| #[trigger]
                plan.flow(batch_bytes, files) == match node {
                    PlanNode::Apply { op, .. } => crate::stream::map_flow(
                        op,
                        self.flow(batch_bytes, files),
                    ),
                    PlanNode::Reduce { op, .. } => crate::stream::reduce_flow(
                        op,
                        self.flow(batch_bytes, files),
                    ),
                    _ => arbitrary(),
                },
    {
        let ghost before = self.nodes@;
        let ghost root = self.root as nat;
        let mut nodes = self.nodes;
        nodes.push(node);
        let plan: LazyTensor<U> = LazyTensor {
            root: nodes.len() - 1,
            nodes,
            batch_bytes: self.batch_bytes,
            paths: self.paths,
            _out: PhantomData,
        };
        proof {
            U::lemma_size();
            broadcast use vstd::layout::align_properties;
            broadcast use vstd::layout::align_nonzero;

            let after = plan.nodes@;
            assert forall|files: Files|
                #![trigger self.failure(files)]
                #![trigger plan.failure(files)]
                {
                    &&& plan.failure(files) == self.failure(files)
                    &&& crate::plan::tree(after, root)
                    &&& crate::plan::span(after, root) == 0
                    &&& after[root as int].form() == before[root as int].form()
                    &&& crate::plan::node_outline(after, root) == self.outline()
                    &&& crate::plan::batch_free(after, root) == self.batch_free()
                    &&& crate::plan::narrowest(after, root) == self.narrowest()
                    &&& forall|batch_bytes: nat| #[trigger]
                        crate::plan::node_flow(after, root, batch_bytes, files) == self.flow(
                            batch_bytes,
                            files,
                        )
                } by {
                assert forall|k: int| 0 <= k <= root implies crate::plan::agrees(
                    before[k],
                    files,
                    #[trigger] after[k + 0],
                    files,
                    0,
                ) by {}
                crate::plan::lemma_agrees(before, files, after, files, root, 0);
                crate::plan::lemma_failure_agrees(
                    before,
                    files,
                    after,
                    files,
                    0,
                    before.len() as int,
                    0,
                );
                crate::plan::lemma_failure_split(
                    after,
                    files,
                    0,
                    before.len() as int,
                    after.len() as int,
                );
                reveal_with_fuel(crate::plan::first_failure, 2);
            }
            let some_files: Files = crate::plan::no_files();
            assert(self.failure(some_files) == plan.failure(some_files));
            assert forall|batch_bytes: nat, files: Files| #[trigger]
                plan.flow(batch_bytes, files) == match node {
                    PlanNode::Apply { op, .. } => crate::stream::map_flow(
                        op,
                        self.flow(batch_bytes, files),
                    ),
                    PlanNode::Reduce { op, .. } => crate::stream::reduce_flow(
                        op,
                        self.flow(batch_bytes, files),
                    ),
                    _ => arbitrary(),
                } by {
                assert(self.failure(files) == plan.failure(files));
                assert(crate::plan::node_flow(after, root, batch_bytes, files) == self.flow(
                    batch_bytes,
                    files,
                ));
            }
        }
        plan
    }

    /// Appends an element-wise transformation to the plan.
    ///
    /// Nothing runs now; during execution each batch is transformed into a new
    /// batch of `U`.
    pub fn map<U: Element>(self, f: impl Fn(T) -> U + Send + Sync + 'static) -> (plan: LazyTensor<U>)
        requires
            self.wf(),
        ensures
            plan.wf(),
            plan.setting() == self.setting(),
            plan.node_count() == self.node_count() + 1,
            plan.batch_free() == self.batch_free(),
            plan.narrowest() == self.narrowest(),
            plan.paths() == self.paths(),
            plan.outline() == Outline::One("map"@, Box::new(self.outline())),
            forall|files: Files| #[trigger] plan.failure(files) == self.failure(files),
            forall|batch_bytes: nat, files: Files| #[trigger]
                plan.meaning(batch_bytes, files) == crate::flow::mapped(
                    self.meaning(batch_bytes, files),
                    fn_accepts(f),
                    fn_gives(f),
                    room_of::<U>(),
                ),
            forall|batch_bytes: nat, files: Files, items: Seq<U>| #[trigger]
                plan.meaning(batch_bytes, files).yields(items) <==> exists|ins: Seq<T>| #[trigger]
                    self.meaning(batch_bytes, files).yields(ins) && ins.len() == items.len()
                        && forall|i: int|
                        0 <= i < items.len() ==> call_ensures(f, (ins[i],), #[trigger] items[i]),
    {
        let made = MapFn { f, elem: PhantomData::<(T, U)> };
        let op = Mapper { op: Box::new(made) };
        let input: usize = self.root;
        proof {
            assert forall|batch_bytes: nat, files: Files| crate::flow::sized(
                crate::stream::map_flow(op, #[trigger] self.flow(batch_bytes, files)),
                crate::view::elem_size::<U>(),
            ) by {
                crate::stream::lemma_map_sized(op, self.flow(batch_bytes, files));
            }
        }
        let plan = self.extended::<U>(
            PlanNode::Apply {
                input,
                op,
                size: core::mem::size_of::<U>(),
                align: core::mem::align_of::<U>(),
            },
        );
        proof {
            assert forall|batch_bytes: nat, files: Files| #[trigger]
                plan.meaning(batch_bytes, files) == crate::flow::mapped(
                    self.meaning(batch_bytes, files),
                    fn_accepts(f),
                    fn_gives(f),
                    room_of::<U>(),
                ) by {
                assert(crate::stream::map_accepts(op) =~= |part: Seq<u8>|
                    (fn_accepts(f))(T::decodes(part)));
                assert(crate::stream::map_gives(op) =~= |part: Seq<u8>, out: Seq<u8>|
                    out.len() == crate::view::elem_size::<U>() && (fn_gives(f))(
                        T::decodes(part),
                        U::decodes(out),
                    ));
                assert(crate::stream::room_for(op.form()) =~= room_of::<U>());
                crate::flow::lemma_typed_mapped::<T, U>(
                    self.flow(batch_bytes, files),
                    fn_accepts(f),
                    fn_gives(f),
                    room_of::<U>(),
                    plan.flow(batch_bytes, files),
                );
            }
            assert forall|batch_bytes: nat, files: Files, items: Seq<U>| #[trigger]
                plan.meaning(batch_bytes, files).yields(items) <==> exists|ins: Seq<T>| #[trigger]
                    self.meaning(batch_bytes, files).yields(ins) && ins.len() == items.len()
                        && forall|i: int|
                        0 <= i < items.len() ==> call_ensures(f, (ins[i],), #[trigger] items[i]) by {
                crate::plan_laws::law_mapped_by_function(
                    f,
                    self.meaning(batch_bytes, files),
                    items,
                );
            }
        }
        plan
    }
}

/// The smaller of two settings.
pub open spec fn smaller(a: nat, b: nat) -> nat {
    if a <= b {
        a
    } else {
        b
    }
}

/// The first of two failures, that of the left side first.
pub open spec fn either_failure(
    left: Option<TensorFileError>,
    right: Option<TensorFileError>,
) -> Option<TensorFileError> {
    match left {
        Some(error) => Some(error),
        None => right,
    }
}

/// The nodes of two plans, side by side, agree with those of each plan.
proof fn lemma_side_by_side(
    left: Seq<PlanNode>,
    right: Seq<PlanNode>,
    all: Seq<PlanNode>,
    left_paths: nat,
    right_paths: nat,
    files: Files,
)
    requires
        left.len() > 0,
        right.len() > 0,
        crate::plan::tree(left, (left.len() - 1) as nat),
        crate::plan::span(left, (left.len() - 1) as nat) == 0,
        crate::plan::tree(right, (right.len() - 1) as nat),
        crate::plan::span(right, (right.len() - 1) as nat) == 0,
        forall|i: int|
            0 <= i < left.len() && (#[trigger] left[i]).is_scan() ==> left[i].slot() < left_paths,
        forall|i: int|
            0 <= i < right.len() && (#[trigger] right[i]).is_scan() ==> right[i].slot()
                < right_paths,
        files.len() == left_paths + right_paths,
        left_paths + right_paths <= usize::MAX,
        all.len() == left.len() + right.len() + 1,
        all.len() <= usize::MAX,
        forall|i: int| 0 <= i < left.len() ==> #[trigger] all[i] == left[i],
        forall|i: int|
            0 <= i < right.len() ==> #[trigger] all[i + left.len()] == right[i].shifted(
                left.len() as int,
                left_paths as int,
            ),
        all[all.len() - 1].failure(files) is None,
    ensures
        crate::plan::tree(all, (left.len() - 1) as nat),
        crate::plan::span(all, (left.len() - 1) as nat) == 0,
        crate::plan::tree(all, (all.len() - 2) as nat),
        crate::plan::span(all, (all.len() - 2) as nat) == left.len(),
        crate::plan::node_outline(all, (left.len() - 1) as nat) == crate::plan::node_outline(
            left,
            (left.len() - 1) as nat,
        ),
        crate::plan::node_outline(all, (all.len() - 2) as nat) == crate::plan::node_outline(
            right,
            (right.len() - 1) as nat,
        ),
        crate::plan::batch_free(all, (left.len() - 1) as nat) == crate::plan::batch_free(
            left,
            (left.len() - 1) as nat,
        ),
        crate::plan::batch_free(all, (all.len() - 2) as nat) == crate::plan::batch_free(
            right,
            (right.len() - 1) as nat,
        ),
        crate::plan::narrowest(all, (left.len() - 1) as nat) == crate::plan::narrowest(
            left,
            (left.len() - 1) as nat,
        ),
        crate::plan::narrowest(all, (all.len() - 2) as nat) == crate::plan::narrowest(
            right,
            (right.len() - 1) as nat,
        ),
        all[left.len() - 1].form() == left[left.len() - 1].form(),
        all[all.len() - 2].form() == right[right.len() - 1].form(),
        crate::plan::first_failure(all, files, 0, all.len() as int) == either_failure(
            crate::plan::first_failure(
                left,
                files.take(left_paths as int),
                0,
                left.len() as int,
            ),
            crate::plan::first_failure(
                right,
                files.skip(left_paths as int),
                0,
                right.len() as int,
            ),
        ),
        forall|batch_bytes: nat| #[trigger]
            crate::plan::node_flow(all, (left.len() - 1) as nat, batch_bytes, files)
                == crate::plan::node_flow(
                left,
                (left.len() - 1) as nat,
                batch_bytes,
                files.take(left_paths as int),
            ),
        forall|batch_bytes: nat| #[trigger]
            crate::plan::node_flow(all, (all.len() - 2) as nat, batch_bytes, files)
                == crate::plan::node_flow(
                right,
                (right.len() - 1) as nat,
                batch_bytes,
                files.skip(left_paths as int),
            ),
{
    let first = files.take(left_paths as int);
    let second = files.skip(left_paths as int);
    let d = left.len() as int;
    assert forall|k: int| 0 <= k <= left.len() - 1 implies crate::plan::agrees(
        left[k],
        first,
        #[trigger] all[k + 0],
        files,
        0,
    ) && left[k].failure(first) == all[k + 0].failure(files) by {
        assert(all[k] == left[k]);
        if left[k].is_scan() {
            assert(first[left[k].slot() as int] == files[left[k].slot() as int]);
        }
    }
    assert forall|k: int| 0 <= k <= right.len() - 1 implies crate::plan::agrees(
        right[k],
        second,
        #[trigger] all[k + d],
        files,
        d,
    ) && right[k].failure(second) == all[k + d].failure(files) by {
        lemma_children_before(right, (right.len() - 1) as nat, k);
        if right[k].is_scan() {
            assert(second[right[k].slot() as int] == files[(right[k].slot() + left_paths) as int]);
        }
    }
    crate::plan::lemma_agrees(left, first, all, files, (left.len() - 1) as nat, 0);
    crate::plan::lemma_agrees(right, second, all, files, (right.len() - 1) as nat, d);
    crate::plan::lemma_failure_agrees(left, first, all, files, 0, d, 0);
    crate::plan::lemma_failure_agrees(right, second, all, files, 0, right.len() as int, d);
    crate::plan::lemma_failure_split(all, files, 0, d, all.len() - 1);
    crate::plan::lemma_failure_split(all, files, 0, all.len() - 1, all.len() as int);
    reveal_with_fuel(crate::plan::first_failure, 2);
}

/// The inputs of every node of a tree stand before it.
proof fn lemma_children_before(nodes: Seq<PlanNode>, id: nat, k: int)
    requires
        crate::plan::tree(nodes, id),
        crate::plan::span(nodes, id) <= k <= id,
    ensures
        match nodes[k] {
            PlanNode::Source { .. } => true,
            PlanNode::Apply { input, .. } => input < k,
            PlanNode::Zip { left, right, .. } => left < k && right < k,
            PlanNode::Reduce { input, .. } => input < k,
        },
    decreases id,
{
    match nodes[id as int] {
        PlanNode::Source { .. } => {},
        PlanNode::Apply { input, .. } => {
            if k < id {
                lemma_children_before(nodes, input as nat, k);
            }
        },
        PlanNode::Zip { left, right, .. } => {
            if k <= left {
                lemma_children_before(nodes, left as nat, k);
            } else if k < id {
                lemma_children_before(nodes, right as nat, k);
            }
        },
        PlanNode::Reduce { input, .. } => {
            if k < id {
                lemma_children_before(nodes, input as nat, k);
            }
        },
    }
}

impl<T: Element> LazyTensor<T> {
    /// Merges `other`'s arena into this plan's and roots a node that combines
    /// both: the shared implementation of every binary operation.
    fn zip_nodes<U: Element, V: Element>(
        self,
        other: LazyTensor<U>,
        label: &'static str,
        op: Zipper,
    ) -> (plan: LazyTensor<V>)
        requires
            self.wf(),
            other.wf(),
            op.takes_left() == crate::ops::form_of::<T>(),
            op.takes_right() == crate::ops::form_of::<U>(),
            op.form() == crate::ops::form_of::<V>(),
        ensures
            plan.wf(),
            plan.setting() == smaller(self.setting(), other.setting()),
            plan.node_count() == self.node_count() + other.node_count() + 1,
            plan.batch_free() == (self.batch_free() && other.batch_free()),
            plan.narrowest() == smaller(self.narrowest(), other.narrowest()),
            plan.paths() == self.paths() + other.paths(),
            plan.outline() == Outline::Two(
                label@,
                Box::new(self.outline()),
                Box::new(other.outline()),
            ),
            forall|files: Files|
                files.len() == self.paths().len() + other.paths().len() ==> #[trigger] plan.failure(
                    files,
                ) == either_failure(
                    self.failure(files.take(self.paths().len() as int)),
                    other.failure(files.skip(self.paths().len() as int)),
                ),
            forall|batch_bytes: nat, files: Files|
                files.len() == self.paths().len() + other.paths().len() ==> #[trigger] plan.flow(
                    batch_bytes,
                    files,
                ) == crate::stream::zip_flow(
                    op,
                    self.flow(batch_bytes, files.take(self.paths().len() as int)),
                    other.flow(batch_bytes, files.skip(self.paths().len() as int)),
                ),
    {
        let ghost left_nodes = self.nodes@;
        let ghost right_nodes = other.nodes@;
        let offset: usize = self.nodes.len();
        let slots: usize = self.paths.len();
        let mut nodes = self.nodes;
        let mut other_nodes = other.nodes;
        nodes.append(&mut other_nodes);
        let mut paths = self.paths;
        let mut other_paths = other.paths;
        paths.append(&mut other_paths);
        let all_paths: usize = paths.len();
        let total: usize = nodes.len();
        let ghost appended = nodes@;
        let mut i: usize = offset;
        while i < nodes.len()
            invariant
                offset <= i <= nodes@.len(),
                nodes@.len() == total,
                appended.len() == total,
                appended == left_nodes + right_nodes,
                offset == left_nodes.len(),
                right_nodes.len() > 0,
                crate::plan::tree(right_nodes, (right_nodes.len() - 1) as nat),
                crate::plan::span(right_nodes, (right_nodes.len() - 1) as nat) == 0,
                forall|k: int|
                    0 <= k < right_nodes.len() && (#[trigger] right_nodes[k]).is_scan()
                        ==> right_nodes[k].slot() + slots < all_paths,
                forall|k: int| 0 <= k < offset ==> #[trigger] nodes@[k] == left_nodes[k],
                forall|k: int|
                    offset <= k < i ==> #[trigger] nodes@[k] == right_nodes[k - offset].shifted(
                        offset as int,
                        slots as int,
                    ),
                forall|k: int| i <= k < total ==> #[trigger] nodes@[k] == appended[k],
            decreases total - i,
        {
            proof {
                lemma_children_before(
                    right_nodes,
                    (right_nodes.len() - 1) as nat,
                    i as int - offset,
                );
                assert(nodes@[i as int] == right_nodes[i as int - offset]);
            }
            nodes[i].shift_children(offset, slots);
            i = i + 1;
        }
        let left_size: usize = core::mem::size_of::<T>();
        let right_size: usize = core::mem::size_of::<U>();
        let left: usize = offset - 1;
        let right: usize = total - 1;
        nodes.push(
            PlanNode::Zip {
                left,
                right,
                label,
                op,
                left_size,
                right_size,
                size: core::mem::size_of::<V>(),
                align: core::mem::align_of::<V>(),
            },
        );
        let batch_bytes: usize = if self.batch_bytes <= other.batch_bytes {
            self.batch_bytes
        } else {
            other.batch_bytes
        };
        let plan: LazyTensor<V> = LazyTensor {
            root: nodes.len() - 1,
            nodes,
            batch_bytes,
            paths,
            _out: PhantomData,
        };
        proof {
            V::lemma_size();
            broadcast use vstd::layout::align_properties;
            broadcast use vstd::layout::align_nonzero;

            let all = plan.nodes@;
            let m = other.paths@.len();
            assert(plan.paths() =~= self.paths() + other.paths());
            assert forall|i: int|
                0 <= i < right_nodes.len() implies #[trigger] all[i + left_nodes.len()]
                == right_nodes[i].shifted(left_nodes.len() as int, slots as int) by {}
            let some_files: Files = Seq::new(slots as nat + m, |i: int| arbitrary());
            lemma_side_by_side(left_nodes, right_nodes, all, slots as nat, m, some_files);
            assert forall|k: int|
                0 <= k < all.len() && (#[trigger] all[k]).is_scan() implies all[k].slot()
                < plan.paths@.len() by {
                if k < offset {
                    assert(all[k] == left_nodes[k]);
                } else if k < total {
                    let j = k - offset;
                    assert(all[j + left_nodes.len()] == right_nodes[j].shifted(
                        offset as int,
                        slots as int,
                    ));
                    assert(right_nodes[j].is_scan());
                }
            }
            assert forall|batch_bytes: nat, files: Files| crate::flow::sized(
                #[trigger] plan.flow(batch_bytes, files),
                crate::view::elem_size::<V>(),
            ) by {
                crate::stream::lemma_zip_sized(
                    op,
                    crate::plan::node_flow(all, left as nat, batch_bytes, files),
                    crate::plan::node_flow(all, right as nat, batch_bytes, files),
                );
            }
            assert forall|files: Files|
                files.len() == self.paths().len() + other.paths().len() implies #[trigger] plan.failure(
                files,
            ) == either_failure(
                self.failure(files.take(self.paths().len() as int)),
                other.failure(files.skip(self.paths().len() as int)),
            ) by {
                lemma_side_by_side(left_nodes, right_nodes, all, slots as nat, m, files);
            }
            assert forall|batch_bytes: nat, files: Files|
                files.len() == self.paths().len() + other.paths().len() implies #[trigger] plan.flow(
                batch_bytes,
                files,
            ) == crate::stream::zip_flow(
                op,
                self.flow(batch_bytes, files.take(self.paths().len() as int)),
                other.flow(batch_bytes, files.skip(self.paths().len() as int)),
            ) by {
                lemma_side_by_side(left_nodes, right_nodes, all, slots as nat, m, files);
                assert(crate::plan::node_flow(all, left as nat, batch_bytes, files) == self.flow(
                    batch_bytes,
                    files.take(slots as int),
                ));
                assert(crate::plan::node_flow(all, right as nat, batch_bytes, files) == other.flow(
                    batch_bytes,
                    files.skip(slots as int),
                ));
            }
        }
        plan
    }
}

impl<T: Element> LazyTensor<T> {
    /// Combines two plans element-wise with `f`, yielding a lazy plan of the
    /// results.
    ///
    /// The element types of the two sides (and of the output) may all differ.
    /// During execution the two streams are pulled in lockstep and
    /// **re-chunked**: their batches need not line up, the zip consumes the
    /// overlap of the current batches and buffers the remainder.
    ///
    /// Executing the combined plan fails with [`EngineError::LengthMismatch`]
    /// if the two sides produce different numbers of elements.
    pub fn zip_with<U: Element, V: Element>(
        self,
        other: LazyTensor<U>,
        f: impl Fn(T, U) -> V + Send + Sync + 'static,
    ) -> (plan: LazyTensor<V>)
        requires
            self.wf(),
            other.wf(),
        ensures
            plan.wf(),
            plan.setting() == smaller(self.setting(), other.setting()),
            plan.node_count() == self.node_count() + other.node_count() + 1,
            plan.batch_free() == (self.batch_free() && other.batch_free()),
            plan.narrowest() == smaller(self.narrowest(), other.narrowest()),
            plan.paths() == self.paths() + other.paths(),
            plan.outline() == Outline::Two(
                "zip_with"@,
                Box::new(self.outline()),
                Box::new(other.outline()),
            ),
            forall|files: Files|
                files.len() == self.paths().len() + other.paths().len() ==> #[trigger] plan.failure(
                    files,
                ) == either_failure(
                    self.failure(files.take(self.paths().len() as int)),
                    other.failure(files.skip(self.paths().len() as int)),
                ),
            forall|batch_bytes: nat, files: Files|
                files.len() == self.paths().len() + other.paths().len() ==> #[trigger] plan.meaning(
                    batch_bytes,
                    files,
                ) == crate::flow::zipped(
                    self.meaning(batch_bytes, files.take(self.paths().len() as int)),
                    other.meaning(batch_bytes, files.skip(self.paths().len() as int)),
                    pair_accepts(f),
                    pair_gives(f),
                    room_of::<V>(),
                ),
    {
        let made = ZipFn { f, elem: PhantomData::<(T, U, V)> };
        let op = Zipper { op: Box::new(made) };
        let plan = self.zip_nodes::<U, V>(other, "zip_with", op);
        proof {
            assert forall|batch_bytes: nat, files: Files|
                files.len() == self.paths().len() + other.paths().len() implies #[trigger] plan.meaning(
                batch_bytes,
                files,
            ) == crate::flow::zipped(
                self.meaning(batch_bytes, files.take(self.paths().len() as int)),
                other.meaning(batch_bytes, files.skip(self.paths().len() as int)),
                pair_accepts(f),
                pair_gives(f),
                room_of::<V>(),
            ) by {
                assert(crate::stream::zip_accepts(op) =~= |l: Seq<u8>, r: Seq<u8>|
                    (pair_accepts(f))(T::decodes(l), U::decodes(r)));
                assert(crate::stream::zip_gives(op) =~= |l: Seq<u8>, r: Seq<u8>, out: Seq<u8>|
                    out.len() == crate::view::elem_size::<V>() && (pair_gives(f))(
                        T::decodes(l),
                        U::decodes(r),
                        V::decodes(out),
                    ));
                assert(crate::stream::room_for(op.form()) =~= room_of::<V>());
                crate::flow::lemma_typed_zipped::<T, U, V>(
                    self.flow(batch_bytes, files.take(self.paths().len() as int)),
                    other.flow(batch_bytes, files.skip(self.paths().len() as int)),
                    pair_accepts(f),
                    pair_gives(f),
                    room_of::<V>(),
                    plan.flow(batch_bytes, files),
                );
            }
        }
        plan
    }
}

/// The pairs of elements for which `add` is defined.
pub open spec fn add_accepts<T: Add<Output = T>>() -> spec_fn(T, T) -> bool {
    |x: T, y: T| x.add_req(y)
}

/// What `add` gives for a pair of elements.
pub open spec fn add_gives<T: Add<Output = T>>() -> spec_fn(T, T, T) -> bool {
    |x: T, y: T, z: T| crate::kernel::adds_to(x, y, z)
}

/// Element-wise addition of two plans: `a + b`, lazily.
///
/// Operands are consumed (plans are single-use recipes). Executing the result
/// fails with [`EngineError::LengthMismatch`] if the operands produce different
/// numbers of elements.
impl<T: Element + Add<Output = T>> Add for LazyTensor<T> {
    type Output = LazyTensor<T>;

    fn add(self, rhs: Self) -> (plan: LazyTensor<T>)
        ensures
            plan.wf(),
            plan.setting() == smaller(self.setting(), rhs.setting()),
            plan.node_count() == self.node_count() + rhs.node_count() + 1,
            plan.batch_free() == (self.batch_free() && rhs.batch_free()),
            plan.narrowest() == smaller(self.narrowest(), rhs.narrowest()),
            plan.paths() == self.paths() + rhs.paths(),
            plan.outline() == Outline::Two(
                "add"@,
                Box::new(self.outline()),
                Box::new(rhs.outline()),
            ),
            forall|files: Files|
                files.len() == self.paths().len() + rhs.paths().len() ==> #[trigger] plan.failure(
                    files,
                ) == either_failure(
                    self.failure(files.take(self.paths().len() as int)),
                    rhs.failure(files.skip(self.paths().len() as int)),
                ),
            forall|batch_bytes: nat, files: Files|
                files.len() == self.paths().len() + rhs.paths().len() ==> #[trigger] plan.meaning(
                    batch_bytes,
                    files,
                ) == crate::flow::zipped(
                    self.meaning(batch_bytes, files.take(self.paths().len() as int)),
                    rhs.meaning(batch_bytes, files.skip(self.paths().len() as int)),
                    add_accepts::<T>(),
                    add_gives::<T>(),
                    room_of::<T>(),
                ),
    {
        let made: AddElements<T> = AddElements { elem: PhantomData };
        let op = Zipper { op: Box::new(made) };
        let plan = self.zip_nodes::<T, T>(rhs, "add", op);
        proof {
            assert forall|batch_bytes: nat, files: Files|
                files.len() == self.paths().len() + rhs.paths().len() implies #[trigger] plan.meaning(
                batch_bytes,
                files,
            ) == crate::flow::zipped(
                self.meaning(batch_bytes, files.take(self.paths().len() as int)),
                rhs.meaning(batch_bytes, files.skip(self.paths().len() as int)),
                add_accepts::<T>(),
                add_gives::<T>(),
                room_of::<T>(),
            ) by {
                assert(crate::stream::zip_accepts(op) =~= |l: Seq<u8>, r: Seq<u8>|
                    (add_accepts::<T>())(T::decodes(l), T::decodes(r)));
                assert(crate::stream::zip_gives(op) =~= |l: Seq<u8>, r: Seq<u8>, out: Seq<u8>|
                    out.len() == crate::view::elem_size::<T>() && (add_gives::<T>())(
                        T::decodes(l),
                        T::decodes(r),
                        T::decodes(out),
                    ));
                assert(crate::stream::room_for(op.form()) =~= room_of::<T>());
                crate::flow::lemma_typed_zipped::<T, T, T>(
                    self.flow(batch_bytes, files.take(self.paths().len() as int)),
                    rhs.flow(batch_bytes, files.skip(self.paths().len() as int)),
                    add_accepts::<T>(),
                    add_gives::<T>(),
                    room_of::<T>(),
                    plan.flow(batch_bytes, files),
                );
            }
        }
        plan
    }
}

impl<T: Element + Add<Output = T>> vstd::std_specs::ops::AddSpecImpl for LazyTensor<T> {
    open spec fn obeys_add_spec() -> bool {
        false
    }

    open spec fn add_req(self, rhs: Self) -> bool {
        self.wf() && rhs.wf()
    }

    open spec fn add_spec(self, rhs: Self) -> LazyTensor<T> {
        arbitrary()
    }
}

/// The pairs of elements for which `sub` is defined.
pub open spec fn sub_accepts<T: Sub<Output = T>>() -> spec_fn(T, T) -> bool {
    |x: T, y: T| x.sub_req(y)
}

/// What `sub` gives for a pair of elements.
pub open spec fn sub_gives<T: Sub<Output = T>>() -> spec_fn(T, T, T) -> bool {
    |x: T, y: T, z: T| crate::kernel::subtracts_to(x, y, z)
}

/// Element-wise subtraction of two plans: `a - b`, lazily.
///
/// Operands are consumed (plans are single-use recipes). Executing the result
/// fails with [`EngineError::LengthMismatch`] if the operands produce different
/// numbers of elements.
impl<T: Element + Sub<Output = T>> Sub for LazyTensor<T> {
    type Output = LazyTensor<T>;

    fn sub(self, rhs: Self) -> (plan: LazyTensor<T>)
        ensures
            plan.wf(),
            plan.setting() == smaller(self.setting(), rhs.setting()),
            plan.node_count() == self.node_count() + rhs.node_count() + 1,
            plan.batch_free() == (self.batch_free() && rhs.batch_free()),
            plan.narrowest() == smaller(self.narrowest(), rhs.narrowest()),
            plan.paths() == self.paths() + rhs.paths(),
            plan.outline() == Outline::Two(
                "sub"@,
                Box::new(self.outline()),
                Box::new(rhs.outline()),
            ),
            forall|files: Files|
                files.len() == self.paths().len() + rhs.paths().len() ==> #[trigger] plan.failure(
                    files,
                ) == either_failure(
                    self.failure(files.take(self.paths().len() as int)),
                    rhs.failure(files.skip(self.paths().len() as int)),
                ),
            forall|batch_bytes: nat, files: Files|
                files.len() == self.paths().len() + rhs.paths().len() ==> #[trigger] plan.meaning(
                    batch_bytes,
                    files,
                ) == crate::flow::zipped(
                    self.meaning(batch_bytes, files.take(self.paths().len() as int)),
                    rhs.meaning(batch_bytes, files.skip(self.paths().len() as int)),
                    sub_accepts::<T>(),
                    sub_gives::<T>(),
                    room_of::<T>(),
                ),
    {
        let made: SubElements<T> = SubElements { elem: PhantomData };
        let op = Zipper { op: Box::new(made) };
        let plan = self.zip_nodes::<T, T>(rhs, "sub", op);
        proof {
            assert forall|batch_bytes: nat, files: Files|
                files.len() == self.paths().len() + rhs.paths().len() implies #[trigger] plan.meaning(
                batch_bytes,
                files,
            ) == crate::flow::zipped(
                self.meaning(batch_bytes, files.take(self.paths().len() as int)),
                rhs.meaning(batch_bytes, files.skip(self.paths().len() as int)),
                sub_accepts::<T>(),
                sub_gives::<T>(),
                room_of::<T>(),
            ) by {
                assert(crate::stream::zip_accepts(op) =~= |l: Seq<u8>, r: Seq<u8>|
                    (sub_accepts::<T>())(T::decodes(l), T::decodes(r)));
                assert(crate::stream::zip_gives(op) =~= |l: Seq<u8>, r: Seq<u8>, out: Seq<u8>|
                    out.len() == crate::view::elem_size::<T>() && (sub_gives::<T>())(
                        T::decodes(l),
                        T::decodes(r),
                        T::decodes(out),
                    ));
                assert(crate::stream::room_for(op.form()) =~= room_of::<T>());
                crate::flow::lemma_typed_zipped::<T, T, T>(
                    self.flow(batch_bytes, files.take(self.paths().len() as int)),
                    rhs.flow(batch_bytes, files.skip(self.paths().len() as int)),
                    sub_accepts::<T>(),
                    sub_gives::<T>(),
                    room_of::<T>(),
                    plan.flow(batch_bytes, files),
                );
            }
        }
        plan
    }
}

impl<T: Element + Sub<Output = T>> vstd::std_specs::ops::SubSpecImpl for LazyTensor<T> {
    open spec fn obeys_sub_spec() -> bool {
        false
    }

    open spec fn sub_req(self, rhs: Self) -> bool {
        self.wf() && rhs.wf()
    }

    open spec fn sub_spec(self, rhs: Self) -> LazyTensor<T> {
        arbitrary()
    }
}

/// The pairs of elements for which `mul` is defined.
pub open spec fn mul_accepts<T: Mul<Output = T>>() -> spec_fn(T, T) -> bool {
    |x: T, y: T| x.mul_req(y)
}

/// What `mul` gives for a pair of elements.
pub open spec fn mul_gives<T: Mul<Output = T>>() -> spec_fn(T, T, T) -> bool {
    |x: T, y: T, z: T| crate::kernel::multiplies_to(x, y, z)
}

/// Element-wise product of two plans: `a * b`, lazily.
///
/// Operands are consumed (plans are single-use recipes). Executing the result
/// fails with [`EngineError::LengthMismatch`] if the operands produce different
/// numbers of elements.
impl<T: Element + Mul<Output = T>> Mul for LazyTensor<T> {
    type Output = LazyTensor<T>;

    fn mul(self, rhs: Self) -> (plan: LazyTensor<T>)
        ensures
            plan.wf(),
            plan.setting() == smaller(self.setting(), rhs.setting()),
            plan.node_count() == self.node_count() + rhs.node_count() + 1,
            plan.batch_free() == (self.batch_free() && rhs.batch_free()),
            plan.narrowest() == smaller(self.narrowest(), rhs.narrowest()),
            plan.paths() == self.paths() + rhs.paths(),
            plan.outline() == Outline::Two(
                "mul"@,
                Box::new(self.outline()),
                Box::new(rhs.outline()),
            ),
            forall|files: Files|
                files.len() == self.paths().len() + rhs.paths().len() ==> #[trigger] plan.failure(
                    files,
                ) == either_failure(
                    self.failure(files.take(self.paths().len() as int)),
                    rhs.failure(files.skip(self.paths().len() as int)),
                ),
            forall|batch_bytes: nat, files: Files|
                files.len() == self.paths().len() + rhs.paths().len() ==> #[trigger] plan.meaning(
                    batch_bytes,
                    files,
                ) == crate::flow::zipped(
                    self.meaning(batch_bytes, files.take(self.paths().len() as int)),
                    rhs.meaning(batch_bytes, files.skip(self.paths().len() as int)),
                    mul_accepts::<T>(),
                    mul_gives::<T>(),
                    room_of::<T>(),
                ),
    {
        let made: MulElements<T> = MulElements { elem: PhantomData };
        let op = Zipper { op: Box::new(made) };
        let plan = self.zip_nodes::<T, T>(rhs, "mul", op);
        proof {
            assert forall|batch_bytes: nat, files: Files|
                files.len() == self.paths().len() + rhs.paths().len() implies #[trigger] plan.meaning(
                batch_bytes,
                files,
            ) == crate::flow::zipped(
                self.meaning(batch_bytes, files.take(self.paths().len() as int)),
                rhs.meaning(batch_bytes, files.skip(self.paths().len() as int)),
                mul_accepts::<T>(),
                mul_gives::<T>(),
                room_of::<T>(),
            ) by {
                assert(crate::stream::zip_accepts(op) =~= |l: Seq<u8>, r: Seq<u8>|
                    (mul_accepts::<T>())(T::decodes(l), T::decodes(r)));
                assert(crate::stream::zip_gives(op) =~= |l: Seq<u8>, r: Seq<u8>, out: Seq<u8>|
                    out.len() == crate::view::elem_size::<T>() && (mul_gives::<T>())(
                        T::decodes(l),
                        T::decodes(r),
                        T::decodes(out),
                    ));
                assert(crate::stream::room_for(op.form()) =~= room_of::<T>());
                crate::flow::lemma_typed_zipped::<T, T, T>(
                    self.flow(batch_bytes, files.take(self.paths().len() as int)),
                    rhs.flow(batch_bytes, files.skip(self.paths().len() as int)),
                    mul_accepts::<T>(),
                    mul_gives::<T>(),
                    room_of::<T>(),
                    plan.flow(batch_bytes, files),
                );
            }
        }
        plan
    }
}

impl<T: Element + Mul<Output = T>> vstd::std_specs::ops::MulSpecImpl for LazyTensor<T> {
    open spec fn obeys_mul_spec() -> bool {
        false
    }

    open spec fn mul_req(self, rhs: Self) -> bool {
        self.wf() && rhs.wf()
    }

    open spec fn mul_spec(self, rhs: Self) -> LazyTensor<T> {
        arbitrary()
    }
}

impl<T: Element> LazyTensor<T> {
    /// Appends a streaming sum reduction to the plan, yielding a **lazy**
    /// one-element tensor (zero for an empty source).
    ///
    /// Nothing executes now. On execution, each batch is reduced as
    /// [`kernel::sum`](crate::kernel::sum) does and dropped before the next one
    /// is produced, so memory stays bounded; per-batch partial sums are added
    /// in order, making the result deterministic for a given batch size. Get
    /// the scalar with `.collect()?.item()`.
    pub fn sum(self) -> (plan: LazyTensor<T>) where T: Summand
        requires
            self.wf(),
        ensures
            plan.wf(),
            plan.setting() == self.setting(),
            plan.node_count() == self.node_count() + 1,
            T::exact() ==> plan.batch_free() == self.batch_free(),
            plan.narrowest() == self.narrowest(),
            plan.paths() == self.paths(),
            plan.outline() == Outline::One("sum"@, Box::new(self.outline())),
            forall|files: Files| #[trigger] plan.failure(files) == self.failure(files),
            forall|batch_bytes: nat, files: Files| #[trigger]
                plan.meaning(batch_bytes, files) == summed(self.meaning(batch_bytes, files)),
    {
        let made: SumElements<T> = SumElements { elem: PhantomData };
        let op = Reducer { op: Box::new(made) };
        let input: usize = self.root;
        let ghost step = crate::kernel::sum_step::<T>();
        proof {
            assert(crate::stream::reduce_step(op) =~= crate::flow::step_on_bytes(step));
            assert(crate::stream::room_for(op.form()) =~= room_of::<T>());
            if T::exact() {
                crate::sum_laws::lemma_sums_are_batch_free::<T>();
                crate::flow::lemma_batch_free_on_bytes(T::nil(), step);
            }
            assert forall|batch_bytes: nat, files: Files| crate::flow::sized(
                crate::stream::reduce_flow(op, #[trigger] self.flow(batch_bytes, files)),
                crate::view::elem_size::<T>(),
            ) by {
                crate::flow::lemma_typed_reduced::<T>(
                    self.flow(batch_bytes, files),
                    T::nil(),
                    step,
                    room_of::<T>(),
                    crate::stream::reduce_flow(op, self.flow(batch_bytes, files)),
                );
            }
        }
        let plan = self.extended::<T>(
            PlanNode::Reduce {
                input,
                label: "sum",
                op,
                size: core::mem::size_of::<T>(),
                align: core::mem::align_of::<T>(),
            },
        );
        proof {
            assert forall|batch_bytes: nat, files: Files| #[trigger]
                plan.meaning(batch_bytes, files) == summed(self.meaning(batch_bytes, files)) by {
                crate::flow::lemma_typed_reduced::<T>(
                    self.flow(batch_bytes, files),
                    T::nil(),
                    step,
                    room_of::<T>(),
                    plan.flow(batch_bytes, files),
                );
            }
        }
        plan
    }

    /// Renders the plan as a human-readable tree, one node per line, with the
    /// **last** operation first (the root) and sources as leaves.
    #[must_use]
    pub fn explain(&self) -> (text: String)
        requires
            self.wf(),
        ensures
            text@ == lines(self.outline(), Seq::empty()).drop_last(),
            one_line_labels(self.outline()) ==> line_breaks(text@) + 1 == self.node_count(),
    {
        let mut out = String::new();
        render(&self.nodes, self.root, "", &mut out);
        proof {
            reveal_strlit("");
            assert(""@ =~= Seq::<char>::empty());
            assert(out@ =~= lines(self.outline(), Seq::empty()));
            lemma_last_line_break(self.outline(), Seq::empty());
            self.law_outline_size();
            if one_line_labels(self.outline()) {
                law_one_line_per_node(self.outline(), Seq::empty());
                reveal(Seq::filter);
            }
        }
        let drawn = out.as_str();
        let mut text = String::new();
        text.append(drawn.substring_char(0, drawn.unicode_len() - 1)); // trailing line break
        assert(text@ =~= out@.drop_last());
        text
    }

    /// Renders the plan on one line, as debug output shows it.
    #[must_use]
    pub fn debug_text(&self) -> (text: String)
        requires
            self.wf(),
        ensures
            text@ == "LazyTensor["@ + unbroken(lines(self.outline(), Seq::empty()).drop_last())
                + "]"@,
    {
        let drawn = self.explain();
        let line = without_breaks(drawn.as_str());
        let mut text = String::new();
        text.append("LazyTensor[");
        text.append(line.as_str());
        text.append("]");
        assert(text@ =~= "LazyTensor["@ + line@ + "]"@);
        text
    }

    /// Returns the files that the plan scans, in the order in which
    /// [`LazyTensor::start`] and [`LazyTensor::collect_from`] want them opened.
    #[must_use]
    pub fn scan_paths(&self) -> (paths: &Vec<String>)
        ensures
            paths@.map_values(|path: String| path@) == self.paths(),
    {
        &self.paths
    }
}

/// Files that were opened hold well-formed storages.
pub open spec fn files_wf(files: Files) -> bool {
    forall|i: int|
        0 <= i < files.len() ==> ((#[trigger] files[i]) matches Ok(storage) ==> storage.wf())
}

/// A plan in execution: hands out one batch after the other.
pub struct Execution<T: Element> {
    stream: BatchStream,
    _out: PhantomData<T>,
}

impl<T: Element> Execution<T> {
    /// The execution can go on.
    pub closed spec fn wf(&self) -> bool {
        &&& self.stream.wf()
        &&& self.stream.progress().form == crate::ops::form_of::<T>()
        &&& crate::flow::sized(self.stream.progress().flow, crate::view::elem_size::<T>())
    }

    /// What the plan's executions hand out.
    pub closed spec fn meaning(&self) -> Flow<T> {
        crate::flow::typed::<T>(self.stream.progress().flow)
    }

    /// The number of batches handed out so far.
    pub closed spec fn done(&self) -> nat {
        self.stream.progress().done
    }

    /// The elements handed out so far.
    pub closed spec fn emitted(&self) -> Seq<T> {
        crate::flow::decoded::<T>(self.stream.progress().emitted)
    }

    /// What has been handed out is what the plan may hand out.
    pub proof fn lemma_wf(&self)
        requires
            self.wf(),
        ensures
            self.done() <= self.meaning().layout.len(),
            self.emitted().len() == crate::flow::total(
                self.meaning().layout.take(self.done() as int),
            ),
            (self.meaning().emits)(self.emitted()),
    {
        crate::flow::lemma_encoded_decoded::<T>(self.stream.progress().emitted);
    }

    /// Hands out the next batch, or `None` at the end.
    ///
    /// # Errors
    ///
    /// Returns [`EngineError::LengthMismatch`] once the two sides of a binary
    /// operation turn out to differ in length; the execution is over.
    pub fn next(&mut self) -> (batch: Result<Option<Tensor<T>>, EngineError>)
        requires
            old(self).wf(),
        ensures
            batch is Ok ==> final(self).wf() && final(self).meaning() == old(self).meaning(),
            match batch {
                Ok(Some(tensor)) => {
                    &&& old(self).done() < old(self).meaning().layout.len()
                    &&& tensor.wf()
                    &&& tensor.elements().len() == old(self).meaning().layout[old(
                        self,
                    ).done() as int]
                    &&& final(self).done() == old(self).done() + 1
                    &&& final(self).emitted() == old(self).emitted() + tensor.elements()
                    &&& crate::view::encode_all(final(self).emitted()) == crate::view::encode_all(
                        old(self).emitted(),
                    ) + tensor.bytes()@
                },
                Ok(None) => {
                    &&& old(self).done() == old(self).meaning().layout.len()
                    &&& old(self).meaning().yields(old(self).emitted())
                    &&& final(self).done() == old(self).done()
                    &&& final(self).emitted() == old(self).emitted()
                },
                Err(error) => {
                    &&& old(self).done() == old(self).meaning().layout.len()
                    &&& !old(self).meaning().matched
                    &&& error == EngineError::LengthMismatch
                },
            },
    {
        let ghost before = self.stream.progress();
        proof {
            self.lemma_wf();
        }
        match self.stream.next_batch() {
            Err(error) => Err(error),
            Ok(None) => {
                proof {
                    let layout = old(self).meaning().layout;
                    assert(layout.take(layout.len() as int) =~= layout);
                }
                Ok(None)
            },
            Ok(Some(batch)) => {
                proof {
                    let n = before.flow.layout[before.done as int];
                    crate::ops::lemma_batch_elements::<T>(batch, n);
                    assert(crate::flow::decoded::<T>(
                        before.emitted + crate::ops::parts(batch, before.form),
                    ) =~= crate::flow::decoded::<T>(before.emitted) + crate::view::decode_all::<T>(
                        batch@,
                    ));
                    crate::laws::law_batches_concatenate(
                        crate::flow::decoded::<T>(before.emitted),
                        crate::view::decode_all::<T>(batch@),
                    );
                    crate::view::lemma_encode_all_decoded::<T>(batch@);
                }
                Ok(Some(Tensor::from_storage(batch)))
            },
        }
    }
}

impl<T: Element> LazyTensor<T> {
    /// Starts executing the plan, where `opened` says what became of opening
    /// each of the files that it scans.
    ///
    /// # Errors
    ///
    /// Returns [`EngineError::Source`] with the first source that could not be
    /// opened, or whose bytes do not form elements.
    pub fn start(self, opened: Vec<Result<Storage, String>>) -> (execution: Result<
        Execution<T>,
        EngineError,
    >)
        requires
            self.wf(),
            opened@.len() == self.paths().len(),
            files_wf(opened@),
            self.failure(opened@) is None ==> self.meaning(self.setting(), opened@).safe
                && self.meaning(self.setting(), opened@).fits,
        ensures
            match self.failure(opened@) {
                Some(error) => execution == Err::<Execution<T>, EngineError>(
                    EngineError::Source(error),
                ),
                None => {
                    &&& execution matches Ok(running)
                    &&& running.wf()
                    &&& running.meaning() == self.meaning(self.setting(), opened@)
                    &&& running.done() == 0
                    &&& running.emitted() == Seq::<T>::empty()
                },
            },
    {
        let ghost plan = self.nodes@;
        let ghost files = opened@;
        let ghost root = self.root as nat;
        let mut nodes = self.nodes;
        proof {
            assert forall|i: int| 0 <= i < plan.len() implies crate::plan::sound(
                #[trigger] plan[i].form(),
            ) by {
                crate::plan::lemma_tree_forms(plan, root, i);
            }
        }
        match open_sources(&mut nodes, opened) {
            Err(error) => Err(EngineError::Source(error)),
            Ok(_) => {
                let ghost ready = nodes@;
                proof {
                    assert forall|k: int| 0 <= k <= root implies crate::plan::agrees(
                        plan[k],
                        files,
                        #[trigger] ready[k + 0],
                        crate::plan::no_files(),
                        0,
                    ) by {
                        assert(ready[k + 0] == ready[k]);
                    }
                    crate::plan::lemma_agrees(plan, files, ready, crate::plan::no_files(), root, 0);
                }
                let mut taken: Vec<Option<PlanNode>> = Vec::new();
                for node in iter: nodes
                    invariant
                        iter.seq() == ready,
                        taken@.len() == iter.index(),
                        forall|k: int|
                            0 <= k < taken@.len() ==> #[trigger] taken@[k] == Some(ready[k]),
                {
                    taken.push(Some(node));
                }
                let stream = build_stream(&mut taken, self.root, self.batch_bytes, Ghost(ready));
                let running: Execution<T> = Execution { stream, _out: PhantomData };
                proof {
                    assert(running.emitted() =~= Seq::<T>::empty());
                }
                Ok(running)
            },
        }
    }

    /// Runs the plan and materializes the result as a [`Tensor`], where
    /// `opened` says what became of opening each of the files that it scans.
    ///
    /// # Errors
    ///
    /// Returns [`EngineError`] if a source could not be opened or validated, or
    /// if a binary operation combined plans of different lengths.
    pub fn collect_from(self, opened: Vec<Result<Storage, String>>) -> (result: Result<
        Tensor<T>,
        EngineError,
    >)
        requires
            self.wf(),
            opened@.len() == self.paths().len(),
            files_wf(opened@),
            self.failure(opened@) is None ==> {
                let meaning = self.meaning(self.setting(), opened@);
                meaning.safe && meaning.fits && crate::tensor::holdable::<T>(meaning.count())
            },
        ensures
            match self.failure(opened@) {
                Some(error) => result == Err::<Tensor<T>, EngineError>(EngineError::Source(error)),
                None => if self.meaning(self.setting(), opened@).matched {
                    &&& result matches Ok(tensor)
                    &&& tensor.fresh()
                    &&& self.meaning(self.setting(), opened@).yields(tensor.elements())
                } else {
                    result == Err::<Tensor<T>, EngineError>(EngineError::LengthMismatch)
                },
            },
    {
        let ghost meaning = self.meaning(self.setting(), opened@);
        let mut running = match self.start(opened) {
            Ok(running) => running,
            Err(error) => {
                return Err(error);
            },
        };
        let mut elements: Vec<T> = Vec::new();
        loop
            invariant
                running.wf(),
                running.meaning() == meaning,
                elements@ == running.emitted(),
                self.failure(opened@) is None,
                meaning == self.meaning(self.setting(), opened@),
            ensures
                meaning.matched,
                running.done() == meaning.layout.len(),
            decreases meaning.layout.len() - running.done(),
        {
            proof {
                running.lemma_wf();
            }
            match running.next() {
                Err(error) => {
                    return Err(error);
                },
                Ok(None) => {
                    break;
                },
                Ok(Some(batch)) => {
                    let mut more = batch.as_slice();
                    elements.append(&mut more);
                },
            }
        }
        proof {
            running.lemma_wf();
            assert(meaning.layout.take(running.done() as int) =~= meaning.layout);
        }
        Ok(Tensor::from_elements(elements.as_slice()))
    }

    /// Runs a plan that scans no files and materializes the result as a
    /// [`Tensor`].
    ///
    /// By definition this holds the **entire result** in memory: use it when
    /// the result fits.
    ///
    /// # Errors
    ///
    /// Returns [`EngineError::LengthMismatch`] if a binary operation combined
    /// plans of different lengths.
    pub fn collect(self) -> (result: Result<Tensor<T>, EngineError>)
        requires
            self.wf(),
            self.paths().len() == 0,
            self.failure(Seq::empty()) is None ==> {
                let meaning = self.meaning(self.setting(), Seq::empty());
                meaning.safe && meaning.fits && crate::tensor::holdable::<T>(meaning.count())
            },
        ensures
            match self.failure(Seq::empty()) {
                Some(error) => result == Err::<Tensor<T>, EngineError>(EngineError::Source(error)),
                None => if self.meaning(self.setting(), Seq::empty()).matched {
                    &&& result matches Ok(tensor)
                    &&& tensor.fresh()
                    &&& self.meaning(self.setting(), Seq::empty()).yields(tensor.elements())
                } else {
                    result == Err::<Tensor<T>, EngineError>(EngineError::LengthMismatch)
                },
            },
    {
        let none: Vec<Result<Storage, String>> = Vec::new();
        assert(none@ =~= Seq::empty());
        self.collect_from(none)
    }
}

impl<T: Element> LazyTensor<T> {
    /// Returns `true` if every source of the plan can be opened.
    fn opens(&self, opened: &Vec<Result<Storage, String>>) -> (all: bool)
        requires
            self.wf(),
            opened@.len() == self.paths().len(),
            files_wf(opened@),
        ensures
            all == (self.failure(opened@) is None),
    {
        proof {
            assert forall|i: int| 0 <= i < self.nodes@.len() implies crate::plan::sound(
                #[trigger] self.nodes@[i].form(),
            ) by {
                crate::plan::lemma_tree_forms(self.nodes@, self.root as nat, i);
            }
        }
        sources_open(&self.nodes, opened)
    }

    /// Returns `true` if collecting the plan fails at a source, or if every
    /// batch of the plan and its whole result stay within the largest size that
    /// an allocation can have. Nothing executes.
    #[must_use]
    pub fn can_collect(&self, opened: &Vec<Result<Storage, String>>) -> (can: bool)
        requires
            self.wf(),
            opened@.len() == self.paths().len(),
            files_wf(opened@),
        ensures
            can == (self.failure(opened@) is None ==> self.meaning(self.setting(), opened@).fits
                && crate::tensor::holdable::<T>(self.meaning(self.setting(), opened@).count())),
    {
        if !self.opens(opened) {
            return true;
        }
        let extent = measure(&self.nodes, self.root, self.batch_bytes, opened);
        extent.fits && can_hold::<T>(extent.count)
    }

    /// Returns `true` if starting the plan fails at a source, or if every batch
    /// of the plan stays within the largest size that an allocation can have.
    /// Nothing executes.
    #[must_use]
    pub fn can_start(&self, opened: &Vec<Result<Storage, String>>) -> (can: bool)
        requires
            self.wf(),
            opened@.len() == self.paths().len(),
            files_wf(opened@),
        ensures
            can == (self.failure(opened@) is None ==> self.meaning(self.setting(), opened@).fits),
    {
        !self.opens(opened) || measure(&self.nodes, self.root, self.batch_bytes, opened).fits
    }

    /// Refuses to sink into a file that the plan scans: `sources` are the
    /// identities of the scanned files, in order, `sink` is that of the file to
    /// be written; `None` stands for a file that cannot be inspected.
    ///
    /// # Errors
    ///
    /// Returns [`EngineError::SinkIntoSource`] if the sink is the same file as
    /// any source.
    pub fn check_sink(&self, sources: &[Option<FileId>], sink: Option<FileId>) -> (checked: Result<
        (),
        EngineError,
    >)
        requires
            sources@.len() == self.paths().len(),
        ensures
            checked is Err <==> exists|i: int|
                0 <= i < sources@.len() && (#[trigger] sources@[i]) is Some && sources@[i] == sink,
            match checked {
                Ok(_) => forall|i: int|
                    0 <= i < sources@.len() ==> !same_file(#[trigger] sources@[i], sink),
                Err(error) => {
                    &&& error == EngineError::SinkIntoSource
                    &&& exists|i: int|
                        0 <= i < sources@.len() && same_file(#[trigger] sources@[i], sink)
                },
            },
    {
        let mut i: usize = 0;
        while i < sources.len()
            invariant
                i <= sources@.len(),
                forall|j: int| 0 <= j < i ==> !same_file(#[trigger] sources@[j], sink),
                forall|j: int|
                    0 <= j < i ==> !((#[trigger] sources@[j]) is Some && sources@[j] == sink),
            decreases sources@.len() - i,
        {
            if is_same_file(sources[i], sink) {
                return Err(EngineError::SinkIntoSource);
            }
            proof {
                law_same_file(sources@[i as int], sink);
            }
            i = i + 1;
        }
        Ok(())
    }
}

/// What identifies a file: its device and its number there.
#[derive(Debug, Clone, Copy, PartialEq, Eq, Structural)]
pub struct FileId {
    /// The device that holds the file.
    pub device: u64,
    /// The number of the file on its device.
    pub number: u64,
}

/// Two files are the same if both can be inspected and have the same identity.
pub open spec fn same_file(a: Option<FileId>, b: Option<FileId>) -> bool {
    a is Some && a == b
}

/// Two files are the same exactly if both could be inspected and their devices
/// and numbers agree, whatever these are.
pub proof fn law_same_file(a: Option<FileId>, b: Option<FileId>)
    ensures
        same_file(a, b) <==> match (a, b) {
            (Some(x), Some(y)) => x.device == y.device && x.number == y.number,
            _ => false,
        },
{
}

/// Returns `true` when `a` and `b` refer to the same underlying file, also
/// through symlinks or hard links. Best-effort: `false` when either cannot be
/// inspected (e.g. it does not exist yet).
#[must_use]
pub fn is_same_file(a: Option<FileId>, b: Option<FileId>) -> (same: bool)
    ensures
        same == same_file(a, b),
        same <==> match (a, b) {
            (Some(x), Some(y)) => x.device == y.device && x.number == y.number,
            _ => false,
        },
{
    match (a, b) {
        (Some(a), Some(b)) => a.device == b.device && a.number == b.number,
        _ => false,
    }
}

} // verus!
