//! The execution side of a plan: pull-based streams of batches.
//!
//! Each stream keeps a record of its [`Progress`]: what it has handed out so
//! far, as part of what its plan may hand out.

use crate::flow::Flow;
use crate::lazy::EngineError;
use crate::ops::{Form, Generator, Mapper, Reducer, Zipper};
use crate::storage::Storage;
use vstd::prelude::*;

verus! {

/// There is room for a batch of elements of a form.
pub open spec fn room_for(form: Form) -> spec_fn(nat) -> bool {
    |n: nat| crate::ops::room(form, n)
}

/// The indices that `op` makes elements of.
pub open spec fn generate_accepts(op: Generator) -> spec_fn(nat) -> bool {
    |i: nat| op.accepts(i)
}

/// How `op` relates indices and elements.
pub open spec fn generate_gives(op: Generator) -> spec_fn(nat, Seq<u8>) -> bool {
    |i: nat, out: Seq<u8>| out.len() == op.form().size && op.gives(i, out)
}

/// The flow of a source that makes elements with `op`.
pub open spec fn generate_flow(op: Generator, len: nat, per_batch: nat) -> Flow<Seq<u8>> {
    crate::flow::generated(
        len,
        per_batch,
        generate_accepts(op),
        generate_gives(op),
        room_for(op.form()),
    )
}

/// The elements that `op` transforms.
pub open spec fn map_accepts(op: Mapper) -> spec_fn(Seq<u8>) -> bool {
    |part: Seq<u8>| op.accepts(part)
}

/// How `op` relates elements.
pub open spec fn map_gives(op: Mapper) -> spec_fn(Seq<u8>, Seq<u8>) -> bool {
    |part: Seq<u8>, out: Seq<u8>| out.len() == op.form().size && op.gives(part, out)
}

/// The flow of a transformation with `op`.
pub open spec fn map_flow(op: Mapper, input: Flow<Seq<u8>>) -> Flow<Seq<u8>> {
    crate::flow::mapped(input, map_accepts(op), map_gives(op), room_for(op.form()))
}

/// The elements that `op` combines.
pub open spec fn zip_accepts(op: Zipper) -> spec_fn(Seq<u8>, Seq<u8>) -> bool {
    |l: Seq<u8>, r: Seq<u8>| op.accepts(l, r)
}

/// How `op` relates elements.
pub open spec fn zip_gives(op: Zipper) -> spec_fn(Seq<u8>, Seq<u8>, Seq<u8>) -> bool {
    |l: Seq<u8>, r: Seq<u8>, out: Seq<u8>| out.len() == op.form().size && op.gives(l, r, out)
}

/// The flow of a combination with `op`.
pub open spec fn zip_flow(op: Zipper, left: Flow<Seq<u8>>, right: Flow<Seq<u8>>) -> Flow<Seq<u8>> {
    crate::flow::zipped(left, right, zip_accepts(op), zip_gives(op), room_for(op.form()))
}

/// The steps of a reduction with `op`.
pub open spec fn reduce_step(op: Reducer) -> spec_fn(Seq<u8>, Seq<Seq<u8>>) -> Seq<u8> {
    |so_far: Seq<u8>, batch: Seq<Seq<u8>>| op.step(so_far, batch)
}

/// The flow of a reduction with `op`.
pub open spec fn reduce_flow(op: Reducer, input: Flow<Seq<u8>>) -> Flow<Seq<u8>> {
    crate::flow::reduced(input, op.start(), reduce_step(op), room_for(op.form()))
}

/// Elements made by an operation have its form.
pub proof fn lemma_generate_sized(op: Generator, len: nat, per_batch: nat)
    ensures
        crate::flow::sized(generate_flow(op, len, per_batch), op.form().size),
{
}

/// Elements made by an operation have its form.
pub proof fn lemma_map_sized(op: Mapper, input: Flow<Seq<u8>>)
    ensures
        crate::flow::sized(map_flow(op, input), op.form().size),
{
    let flow = map_flow(op, input);
    assert forall|items: Seq<Seq<u8>>| #[trigger] (flow.emits)(items) implies crate::chunks::uniform(
        items,
        op.form().size,
    ) by {
        let ins = choose|ins: Seq<Seq<u8>>| #[trigger]
            (input.emits)(ins) && crate::flow::related(ins, items, map_gives(op));
        assert(crate::flow::related(ins, items, map_gives(op)));
    }
}

/// Elements made by an operation have its form.
pub proof fn lemma_zip_sized(op: Zipper, left: Flow<Seq<u8>>, right: Flow<Seq<u8>>)
    ensures
        crate::flow::sized(zip_flow(op, left, right), op.form().size),
{
    let flow = zip_flow(op, left, right);
    assert forall|items: Seq<Seq<u8>>| #[trigger] (flow.emits)(items) implies crate::chunks::uniform(
        items,
        op.form().size,
    ) by {
        let (l, r) = choose|l: Seq<Seq<u8>>, r: Seq<Seq<u8>>|
            #![trigger (left.emits)(l), (right.emits)(r)]
            (left.emits)(l) && (right.emits)(r) && crate::flow::zip_related(
                l,
                r,
                items,
                zip_gives(op),
            );
        assert(crate::flow::zip_related(l, r, items, zip_gives(op)));
    }
}

/// How far a stream has got.
pub struct Progress {
    /// What the stream may hand out.
    pub flow: Flow<Seq<u8>>,
    /// The form of its elements.
    pub form: Form,
    /// How many batches it has handed out.
    pub done: nat,
    /// The elements of those batches.
    pub emitted: Seq<Seq<u8>>,
    /// A bound on how many streams it pulls from, one behind the other.
    pub depth: nat,
}

impl Progress {
    /// Nothing has been handed out.
    pub open spec fn fresh(flow: Flow<Seq<u8>>, form: Form, depth: nat) -> Self {
        Progress { flow, form, done: 0, emitted: Seq::empty(), depth }
    }

    /// What has been handed out is part of what may be, and the rest may be
    /// pulled.
    pub open spec fn ok(self) -> bool {
        &&& self.done <= self.flow.layout.len()
        &&& self.emitted.len() == crate::flow::total(self.flow.layout.take(self.done as int))
        &&& (self.flow.emits)(self.emitted)
        &&& crate::flow::positive(self.flow.layout)
        &&& self.flow.safe
        &&& self.flow.fits
        &&& self.form.size > 0
        &&& self.form.align > 0
        &&& self.form.size % self.form.align == 0
    }

    /// The sizes of the batches that are still to come.
    pub open spec fn rest(self) -> Seq<nat> {
        self.flow.layout.skip(self.done as int)
    }

    /// The progress after one more batch.
    pub open spec fn advanced(self, batch: Storage) -> Self {
        Progress {
            done: self.done + 1,
            emitted: self.emitted + crate::ops::parts(batch, self.form),
            ..self
        }
    }

    /// What a pull may result in.
    pub open spec fn pulled(
        self,
        after: Self,
        result: Result<Option<Storage>, EngineError>,
    ) -> bool {
        match result {
            Ok(Some(batch)) => {
                &&& self.done < self.flow.layout.len()
                &&& crate::ops::is_batch(batch, self.form, self.flow.layout[self.done as int])
                &&& after == self.advanced(batch)
            },
            Ok(None) => {
                &&& self.done == self.flow.layout.len()
                &&& self.flow.matched
                &&& after == self
            },
            Err(error) => {
                &&& self.done == self.flow.layout.len()
                &&& !self.flow.matched
                &&& error == EngineError::LengthMismatch
            },
        }
    }

    /// Pulling a batch goes from one state to the next.
    pub proof fn lemma_advanced(self, batch: Storage)
        requires
            self.ok(),
            self.done < self.flow.layout.len(),
            crate::ops::is_batch(batch, self.form, self.flow.layout[self.done as int]),
            (self.flow.emits)(self.emitted + crate::ops::parts(batch, self.form)),
        ensures
            self.advanced(batch).ok(),
            crate::ops::parts(batch, self.form).len() == self.flow.layout[self.done as int],
            self.advanced(batch).emitted.len() == self.emitted.len()
                + self.flow.layout[self.done as int],
            self.rest().len() > 0,
            self.rest()[0] == self.flow.layout[self.done as int],
            self.advanced(batch).rest() == self.rest().skip(1),
            self.flow.layout[self.done as int] > 0,
    {
        crate::flow::lemma_total_at(self.flow.layout, self.done as int);
        crate::chunks::lemma_whole_chunks(
            self.flow.layout[self.done as int],
            self.form.size,
        );
        assert(self.rest().skip(1) =~= self.flow.layout.skip(
            self.done as int + 1,
        ));
    }
}

/// Stream over a storage that forms whole elements (in memory or mapped):
/// yields consecutive windows as zero-copy slices of the shared storage.
pub struct StorageStream {
    pub storage: Storage,
    /// Position in elements.
    pub pos: usize,
    pub batch_elems: usize,
    /// The size in bytes of one element.
    pub size: usize,
    pub progress: Ghost<Progress>,
}

impl StorageStream {
    pub open spec fn wf(&self) -> bool {
        let n = self.storage@.len() / self.size as nat;
        &&& self.progress@.ok()
        &&& self.progress@.flow == crate::flow::listed(
            crate::ops::parts(self.storage, self.progress@.form),
            self.batch_elems as nat,
        )
        &&& self.progress@.form.size == self.size
        &&& self.batch_elems > 0
        &&& self.storage.wf()
        &&& self.storage.viewable(self.progress@.form.size, self.progress@.form.align)
        &&& self.pos <= n
        &&& self.pos == self.progress@.emitted.len()
        &&& self.progress@.rest() == crate::flow::even_layout(
            (n - self.pos) as nat,
            self.batch_elems as nat,
        )
    }

    pub fn new(storage: Storage, size: usize, batch_elems: usize, form: Ghost<Form>) -> (stream: Self)
        requires
            storage.wf(),
            storage.viewable(form@.size, form@.align),
            size == form@.size,
            size > 0,
            form@.align > 0,
            form@.size % form@.align == 0,
            batch_elems > 0,
        ensures
            stream.wf(),
            stream.progress@ == Progress::fresh(
                crate::flow::listed(crate::ops::parts(storage, form@), batch_elems as nat),
                form@,
                0,
            ),
    {
        let ghost parts = crate::ops::parts(storage, form@);
        let ghost flow = crate::flow::listed(parts, batch_elems as nat);
        proof {
            crate::flow::lemma_even_layout(parts.len(), batch_elems as nat);
            assert(parts.take(0) =~= Seq::empty());
            assert(flow.layout.take(0) =~= Seq::empty());
            assert(flow.layout.skip(0) =~= flow.layout);
        }
        StorageStream {
            storage,
            pos: 0,
            batch_elems,
            size,
            progress: Ghost(Progress::fresh(flow, form@, 0)),
        }
    }

    pub fn next_batch(&mut self) -> (result: Result<Option<Storage>, EngineError>)
        requires
            old(self).wf(),
        ensures
            final(self).wf(),
            old(self).progress@.pulled(final(self).progress@, result),
    {
        let ghost before = self.progress@;
        let n: usize = self.storage.len() / self.size;
        if self.pos >= n {
            proof {
                assert(before.rest().len() == 0);
            }
            return Ok(None);
        }
        let end: usize = if self.batch_elems < n - self.pos {
            self.pos + self.batch_elems
        } else {
            n
        };
        let ghost parts = crate::ops::parts(self.storage, before.form);
        proof {
            crate::chunks::lemma_chunks_subrange(
                self.storage@,
                self.size as nat,
                self.pos as int,
                end as int,
            );
            self.storage.lemma_wf();
        }
        let window = self.storage.slice(self.pos * self.size, (end - self.pos) * self.size);
        proof {
            let align = before.form.align as int;
            let from = self.pos * self.size;
            crate::alignment::lemma_divides_product(align, self.size as int, self.pos as int);
            crate::alignment::lemma_divides_sum(align, self.storage.address() as int, from as int);
            assert(before.rest()[0] == end - self.pos);
            let got = crate::ops::parts(window, before.form);
            assert(got == parts.subrange(self.pos as int, end as int));
            assert(before.emitted + got =~= parts.take(end as int));
            before.lemma_advanced(window);
            self.progress@ = before.advanced(window);
        }
        self.pos = end;
        proof {
            assert(self.progress@.rest() =~= crate::flow::even_layout(
                (n - self.pos) as nat,
                self.batch_elems as nat,
            ));
        }
        Ok(Some(window))
    }
}

/// Stream that makes elements on the fly out of their indices.
pub struct GenerateStream {
    pub op: Generator,
    pub next: usize,
    pub len: usize,
    pub batch_elems: usize,
    pub progress: Ghost<Progress>,
}

impl GenerateStream {
    pub open spec fn wf(&self) -> bool {
        &&& self.progress@.ok()
        &&& self.progress@.flow == generate_flow(self.op, self.len as nat, self.batch_elems as nat)
        &&& self.progress@.form == self.op.form()
        &&& self.batch_elems > 0
        &&& self.next <= self.len
        &&& self.next == self.progress@.emitted.len()
        &&& self.progress@.rest() == crate::flow::even_layout(
            (self.len - self.next) as nat,
            self.batch_elems as nat,
        )
    }

    pub fn new(op: Generator, len: usize, batch_elems: usize) -> (stream: Self)
        requires
            op.form().size > 0,
            op.form().align > 0,
            op.form().size % op.form().align == 0,
            batch_elems > 0,
            generate_flow(op, len as nat, batch_elems as nat).safe,
            generate_flow(op, len as nat, batch_elems as nat).fits,
        ensures
            stream.wf(),
            stream.progress@ == Progress::fresh(
                generate_flow(op, len as nat, batch_elems as nat),
                op.form(),
                0,
            ),
    {
        let ghost flow = generate_flow(op, len as nat, batch_elems as nat);
        proof {
            crate::flow::lemma_even_layout(len as nat, batch_elems as nat);
            assert(flow.layout.take(0) =~= Seq::empty());
            assert(flow.layout.skip(0) =~= flow.layout);
        }
        let ghost form = op.form();
        GenerateStream {
            op,
            next: 0,
            len,
            batch_elems,
            progress: Ghost(Progress::fresh(flow, form, 0)),
        }
    }

    pub fn next_batch(&mut self) -> (result: Result<Option<Storage>, EngineError>)
        requires
            old(self).wf(),
        ensures
            final(self).wf(),
            old(self).progress@.pulled(final(self).progress@, result),
    {
        let ghost before = self.progress@;
        if self.next >= self.len {
            proof {
                assert(before.rest().len() == 0);
            }
            return Ok(None);
        }
        let start: usize = self.next;
        let end: usize = if self.batch_elems < self.len - start {
            start + self.batch_elems
        } else {
            self.len
        };
        proof {
            assert(before.rest().len() > 0);
            assert(before.rest()[0] == end - start);
            assert(before.rest()[0] == before.flow.layout[before.done as int]);
            assert((room_for(self.op.form()))(before.flow.layout[before.done as int]));
            let accepts = generate_accepts(self.op);
            assert forall|i: nat| start <= i < end implies #[trigger] self.op.op.accepts(i) by {
                assert(accepts(i));
            }
        }
        let batch = self.op.op.generate(start, end);
        proof {
            let got = crate::ops::parts(batch, before.form);
            let gives = generate_gives(self.op);
            let all = before.emitted + got;
            assert forall|i: int| 0 <= i < all.len() implies gives(i as nat, #[trigger] all[i]) by {
                if i < start {
                    assert(gives(i as nat, before.emitted[i]));
                } else {
                    assert(self.op.gives((start + (i - start)) as nat, got[i - start]));
                }
            }
            before.lemma_advanced(batch);
            self.progress@ = before.advanced(batch);
        }
        self.next = end;
        proof {
            assert(self.progress@.rest() =~= crate::flow::even_layout(
                (self.len - self.next) as nat,
                self.batch_elems as nat,
            ));
        }
        Ok(Some(batch))
    }
}

/// A pull-based stream of batches.
pub enum BatchStream {
    Slices(StorageStream),
    Generated(GenerateStream),
    Mapped(Box<MapStream>),
    Zipped(Box<ZipStream>),
    Summed(Box<SumStream>),
}

impl BatchStream {
    pub open spec fn progress(self) -> Progress {
        match self {
            BatchStream::Slices(stream) => stream.progress@,
            BatchStream::Generated(stream) => stream.progress@,
            BatchStream::Mapped(stream) => stream.progress@,
            BatchStream::Zipped(stream) => stream.progress@,
            BatchStream::Summed(stream) => stream.progress@,
        }
    }

    pub open spec fn wf(self) -> bool
        decreases self,
    {
        &&& self.progress().ok()
        &&& match self {
            BatchStream::Slices(stream) => stream.wf(),
            BatchStream::Generated(stream) => stream.wf(),
            BatchStream::Mapped(stream) => stream.wf(),
            BatchStream::Zipped(stream) => stream.wf(),
            BatchStream::Summed(stream) => stream.wf(),
        }
    }

    /// Produces the next batch, `Ok(None)` when the stream is exhausted, or an
    /// error when two zipped plans disagree on length. After an error nothing
    /// more is pulled.
    pub fn next_batch(&mut self) -> (result: Result<Option<Storage>, EngineError>)
        requires
            old(self).wf(),
        ensures
            result is Ok ==> final(self).wf(),
            old(self).progress().pulled(final(self).progress(), result),
        decreases old(self).progress().depth, 1nat,
    {
        match self {
            BatchStream::Slices(stream) => stream.next_batch(),
            BatchStream::Generated(stream) => stream.next_batch(),
            BatchStream::Mapped(stream) => stream.next_batch(),
            BatchStream::Zipped(stream) => stream.next_batch(),
            BatchStream::Summed(stream) => stream.next_batch(),
        }
    }
}

/// Stream applying a batch-to-batch function to its input.
pub struct MapStream {
    pub inner: BatchStream,
    pub op: Mapper,
    pub progress: Ghost<Progress>,
}

impl MapStream {
    pub open spec fn wf(self) -> bool
        decreases self,
    {
        let inner = self.inner.progress();
        &&& self.inner.wf()
        &&& self.progress@.ok()
        &&& self.progress@.flow == map_flow(self.op, inner.flow)
        &&& self.progress@.form == self.op.form()
        &&& self.op.takes() == inner.form
        &&& self.progress@.done == inner.done
        &&& crate::flow::related(inner.emitted, self.progress@.emitted, map_gives(self.op))
        &&& inner.depth < self.progress@.depth
    }

    pub fn new(inner: BatchStream, op: Mapper) -> (stream: Self)
        requires
            inner.wf(),
            inner.progress().done == 0,
            op.takes() == inner.progress().form,
            op.form().size > 0,
            op.form().align > 0,
            op.form().size % op.form().align == 0,
            map_flow(op, inner.progress().flow).safe,
            map_flow(op, inner.progress().flow).fits,
        ensures
            stream.wf(),
            stream.progress@ == Progress::fresh(
                map_flow(op, inner.progress().flow),
                op.form(),
                inner.progress().depth + 1,
            ),
    {
        let ghost flow = map_flow(op, inner.progress().flow);
        let ghost form = op.form();
        let ghost depth = inner.progress().depth + 1;
        proof {
            assert(flow.layout.take(0) =~= Seq::empty());
            assert(crate::flow::related(
                inner.progress().emitted,
                Seq::<Seq<u8>>::empty(),
                map_gives(op),
            ));
        }
        MapStream { inner, op, progress: Ghost(Progress::fresh(flow, form, depth)) }
    }

    pub fn next_batch(&mut self) -> (result: Result<Option<Storage>, EngineError>)
        requires
            old(self).wf(),
        ensures
            result is Ok ==> final(self).wf(),
            old(self).progress@.pulled(final(self).progress@, result),
        decreases old(self).progress@.depth, 0nat,
    {
        let ghost before = self.progress@;
        let ghost inner_before = self.inner.progress();
        match self.inner.next_batch() {
            Err(error) => Err(error),
            Ok(None) => Ok(None),
            Ok(Some(batch)) => {
                let ghost ins = crate::ops::parts(batch, inner_before.form);
                let ghost inner_after = self.inner.progress();
                proof {
                    crate::chunks::lemma_whole_chunks(
                        before.flow.layout[before.done as int],
                        inner_before.form.size,
                    );
                    assert((room_for(self.op.form()))(before.flow.layout[before.done as int]));
                    let accepts = map_accepts(self.op);
                    assert((inner_before.flow.emits)(inner_after.emitted));
                    assert forall|i: int| 0 <= i < ins.len() implies self.op.accepts(
                        #[trigger] ins[i],
                    ) by {
                        assert(accepts(inner_after.emitted[inner_before.emitted.len() + i]));
                    }
                }
                let out = self.op.op.apply(&batch);
                proof {
                    let outs = crate::ops::parts(out, before.form);
                    let all = before.emitted + outs;
                    let gives = map_gives(self.op);
                    assert forall|i: int| 0 <= i < all.len() implies gives(
                        inner_after.emitted[i],
                        #[trigger] all[i],
                    ) by {
                        if i < before.emitted.len() {
                            assert(gives(inner_before.emitted[i], before.emitted[i]));
                        } else {
                            let j = i - before.emitted.len();
                            assert(self.op.gives(ins[j], outs[j]));
                        }
                    }
                    assert(crate::flow::related(inner_after.emitted, all, gives));
                    before.lemma_advanced(out);
                    self.progress@ = before.advanced(out);
                }
                Ok(Some(out))
            },
        }
    }
}

/// Stream that drains its input on the first pull, reducing every batch, then
/// yields the single one-element result.
pub struct SumStream {
    /// Taken on the first pull; `None` afterwards.
    pub inner: Option<BatchStream>,
    pub op: Reducer,
    pub progress: Ghost<Progress>,
}

impl SumStream {
    pub open spec fn wf(self) -> bool
        decreases self,
    {
        &&& self.progress@.ok()
        &&& self.progress@.form == self.op.form()
        &&& match self.inner {
            Some(inner) => {
                &&& inner.wf()
                &&& self.progress@.done == 0
                &&& self.progress@.flow == reduce_flow(self.op, inner.progress().flow)
                &&& self.op.form() == inner.progress().form
                &&& inner.progress().done == 0
                &&& inner.progress().depth < self.progress@.depth
            },
            None => {
                &&& self.progress@.done == self.progress@.flow.layout.len()
                &&& self.progress@.flow.matched
            },
        }
    }

    pub fn new(inner: BatchStream, op: Reducer) -> (stream: Self)
        requires
            inner.wf(),
            inner.progress().done == 0,
            op.form() == inner.progress().form,
            reduce_flow(op, inner.progress().flow).safe,
            reduce_flow(op, inner.progress().flow).fits,
        ensures
            stream.wf(),
            stream.progress@ == Progress::fresh(
                reduce_flow(op, inner.progress().flow),
                op.form(),
                inner.progress().depth + 1,
            ),
    {
        let ghost flow = reduce_flow(op, inner.progress().flow);
        let ghost form = op.form();
        let ghost depth = inner.progress().depth + 1;
        proof {
            assert(flow.layout.take(0) =~= Seq::empty());
        }
        SumStream { inner: Some(inner), op, progress: Ghost(Progress::fresh(flow, form, depth)) }
    }

    pub fn next_batch(&mut self) -> (result: Result<Option<Storage>, EngineError>)
        requires
            old(self).wf(),
        ensures
            result is Ok ==> final(self).wf(),
            old(self).progress@.pulled(final(self).progress@, result),
        decreases old(self).progress@.depth, 0nat,
    {
        let ghost before = self.progress@;
        let mut inner = match self.inner.take() {
            Some(inner) => inner,
            None => {
                return Ok(None);
            },
        };
        let ghost first = inner.progress();
        let ghost step = reduce_step(self.op);
        let mut so_far = self.op.op.begin();
        assert(crate::flow::split(first.emitted, first.flow.layout.take(0)) =~= Seq::empty());
        loop
            invariant
                inner.wf(),
                inner.progress().flow == first.flow,
                inner.progress().form == first.form,
                inner.progress().depth == first.depth,
                first.depth < before.depth,
                before == old(self).progress@,
                self.progress@ == before,
                before.ok(),
                before.done == 0,
                before.form == first.form,
                self.op.form() == first.form,
                before.flow == reduce_flow(self.op, first.flow),
                step == reduce_step(self.op),
                so_far@.len() == first.form.size,
                so_far@ == crate::flow::split(
                    inner.progress().emitted,
                    first.flow.layout.take(inner.progress().done as int),
                ).fold_left(self.op.start(), step),
            ensures
                inner.progress().done == first.flow.layout.len(),
                first.flow.matched,
            decreases first.flow.layout.len() - inner.progress().done,
        {
            let ghost p = inner.progress();
            match inner.next_batch() {
                Err(error) => {
                    return Err(error);
                },
                Ok(None) => {
                    break;
                },
                Ok(Some(batch)) => {
                    let ghost more = crate::ops::parts(batch, first.form);
                    let ghost size = first.flow.layout[p.done as int];
                    let ghost q = inner.progress();
                    proof {
                        crate::chunks::lemma_whole_chunks(size, first.form.size);
                        crate::flow::lemma_total_at(first.flow.layout, p.done as int);
                        crate::flow::lemma_split_push(
                            p.emitted,
                            first.flow.layout.take(p.done as int),
                            more,
                            size,
                        );
                        let parts = crate::flow::split(
                            p.emitted,
                            first.flow.layout.take(p.done as int),
                        );
                        assert(parts.push(more).drop_last() =~= parts);
                    }
                    so_far = self.op.op.advance(so_far, &batch);
                },
            }
        }
        let ghost result = so_far@;
        let batch = self.op.op.finish(so_far);
        proof {
            let p = inner.progress();
            assert(first.flow.layout.take(p.done as int) =~= first.flow.layout);
            assert(first.flow.yields(p.emitted));
            let all = before.emitted + crate::ops::parts(batch, before.form);
            assert(all =~= seq![result]);
            before.lemma_advanced(batch);
            self.progress@ = before.advanced(batch);
        }
        Ok(Some(batch))
    }
}

/// Adapter turning a batch stream into a stream of windows that can be
/// consumed at any granularity: [`Chunked::peek`] exposes the unconsumed
/// window of the current batch (pulling the next batch as needed) and
/// [`Chunked::advance`] marks elements as consumed. At most one upstream batch
/// is held at a time, so memory stays bounded.
pub struct Chunked {
    pub stream: BatchStream,
    /// The batch currently being consumed, and how many of its elements have
    /// been consumed already.
    pub pending: Option<(Storage, usize)>,
    /// Set once the upstream stream is exhausted.
    pub done: bool,
    /// The size in bytes of one element.
    pub size: usize,
}

impl Chunked {
    /// How many elements of the current batch are still to be consumed.
    pub open spec fn remaining(self) -> nat {
        match self.pending {
            Some((batch, offset)) => (crate::ops::parts(batch, self.stream.progress().form).len()
                - offset) as nat,
            None => 0,
        }
    }

    /// How many elements have been consumed.
    pub open spec fn consumed(self) -> nat {
        (self.stream.progress().emitted.len() - self.remaining()) as nat
    }

    /// The sizes of the batches still to be consumed, starting with what
    /// remains of the current one.
    pub open spec fn rest(self) -> Seq<nat> {
        if self.remaining() > 0 {
            seq![self.remaining()] + self.stream.progress().rest()
        } else {
            self.stream.progress().rest()
        }
    }

    pub open spec fn wf(self) -> bool
        decreases self,
    {
        let progress = self.stream.progress();
        &&& self.stream.wf()
        &&& self.size == progress.form.size
        &&& self.done ==> progress.done == progress.flow.layout.len() && progress.flow.matched
        &&& match self.pending {
            Some((batch, offset)) => {
                let parts = crate::ops::parts(batch, progress.form);
                &&& crate::ops::is_batch(batch, progress.form, parts.len())
                &&& offset <= parts.len()
                &&& parts.len() <= progress.emitted.len()
                &&& parts == progress.emitted.skip(progress.emitted.len() - parts.len())
            },
            None => true,
        }
    }

    /// What is consumed and what is still to come make up the whole.
    pub proof fn lemma_rest(self)
        requires
            self.wf(),
        ensures
            self.remaining() <= self.stream.progress().emitted.len(),
            self.consumed() + crate::flow::total(self.rest())
                == self.stream.progress().flow.count(),
            crate::flow::positive(self.rest()),
    {
        let progress = self.stream.progress();
        crate::flow::lemma_total_at(progress.flow.layout, progress.done as int);
        crate::flow::lemma_total_front(self.remaining(), progress.rest());
    }

    pub fn new(stream: BatchStream, size: usize) -> (chunked: Self)
        requires
            stream.wf(),
            size == stream.progress().form.size,
            stream.progress().done == 0,
        ensures
            chunked.wf(),
            chunked.stream == stream,
            chunked.consumed() == 0,
            chunked.rest() == stream.progress().flow.layout,
    {
        proof {
            let layout = stream.progress().flow.layout;
            assert(layout.skip(0) =~= layout);
            assert(layout.take(0) =~= Seq::empty());
        }
        Chunked { stream, pending: None, done: false, size }
    }

    /// Returns the current unconsumed window, pulling from the upstream as
    /// needed; `None` means the stream is exhausted.
    pub fn peek(&mut self) -> (window: Result<Option<Storage>, EngineError>)
        requires
            old(self).wf(),
        ensures
            match window {
                Ok(Some(w)) => {
                    &&& final(self).same_stream(*old(self))
                    &&& old(self).rest().len() > 0
                    &&& final(self).remaining() == old(self).rest()[0]
                    &&& crate::ops::is_batch(
                        w,
                        final(self).stream.progress().form,
                        old(self).rest()[0],
                    )
                    &&& crate::ops::parts(w, final(self).stream.progress().form)
                        == final(self).stream.progress().emitted.skip(
                        old(self).consumed() as int,
                    )
                },
                Ok(None) => {
                    &&& final(self).same_stream(*old(self))
                    &&& old(self).rest().len() == 0
                    &&& old(self).stream.progress().flow.matched
                },
                Err(error) => {
                    &&& old(self).rest().len() == 0
                    &&& !old(self).stream.progress().flow.matched
                    &&& error == EngineError::LengthMismatch
                },
            },
        decreases old(self).stream.progress().depth, 2nat,
    {
        proof {
            let emitted = self.stream.progress().emitted;
            assert(emitted.take(emitted.len() as int) =~= emitted);
        }
        loop
            invariant
                self.wf(),
                self.same_stream(*old(self)),
            ensures
                self.wf(),
                self.same_stream(*old(self)),
                self.remaining() > 0,
            decreases
                    self.stream.progress().flow.layout.len() - self.stream.progress().done,
                    if self.done {
                        0nat
                    } else {
                        1nat
                    },
        {
            proof {
                self.lemma_rest();
            }
            let consumed: bool = match &self.pending {
                Some((batch, offset)) => *offset >= batch.len() / self.size,
                None => true,
            };
            if !consumed {
                break;
            }
            if self.done {
                self.pending = None;
                return Ok(None);
            }
            let ghost before = self.stream.progress();
            match self.stream.next_batch() {
                Err(error) => {
                    return Err(error);
                },
                Ok(Some(batch)) => {
                    proof {
                        let parts = crate::ops::parts(batch, before.form);
                        let size = before.flow.layout[before.done as int];
                        crate::chunks::lemma_whole_chunks(size, before.form.size);
                        crate::flow::lemma_total_at(before.flow.layout, before.done as int);
                        let emitted = self.stream.progress().emitted;
                        assert(emitted.skip(emitted.len() - parts.len()) =~= parts);
                        assert(emitted.take(before.emitted.len() as int) =~= before.emitted);
                        assert(emitted.take(old(self).stream.progress().emitted.len() as int)
                            =~= before.emitted.take(
                            old(self).stream.progress().emitted.len() as int,
                        ));
                    }
                    self.pending = Some((batch, 0));
                },
                Ok(None) => {
                    self.done = true;
                },
            }
        }
        let ghost progress = self.stream.progress();
        match &self.pending {
            Some((batch, offset)) => {
                let n: usize = batch.len() / self.size;
                proof {
                    let parts = crate::ops::parts(*batch, progress.form);
                    crate::chunks::lemma_whole_chunks(parts.len(), progress.form.size);
                    crate::chunks::lemma_chunks_subrange(
                        batch@,
                        self.size as nat,
                        *offset as int,
                        n as int,
                    );
                    batch.lemma_wf();
                }
                let window = batch.slice(*offset * self.size, (n - *offset) * self.size);
                proof {
                    let align = progress.form.align as int;
                    let from = *offset * self.size;
                    crate::alignment::lemma_divides_product(
                        align,
                        self.size as int,
                        *offset as int,
                    );
                    crate::alignment::lemma_divides_sum(
                        align,
                        batch.address() as int,
                        from as int,
                    );
                    assert(crate::ops::parts(window, progress.form)
                        =~= progress.emitted.skip(old(self).consumed() as int));
                }
                Ok(Some(window))
            },
            None => Ok(None),
        }
    }

    /// Nothing has been consumed since, and what was pulled since is new.
    pub open spec fn same_stream(self, before: Self) -> bool {
        let old_progress = before.stream.progress();
        let progress = self.stream.progress();
        &&& self.wf()
        &&& self.size == before.size
        &&& progress.flow == old_progress.flow
        &&& progress.form == old_progress.form
        &&& progress.depth == old_progress.depth
        &&& self.consumed() == before.consumed()
        &&& self.rest() == before.rest()
        &&& old_progress.emitted.len() <= progress.emitted.len()
        &&& progress.emitted.take(old_progress.emitted.len() as int) == old_progress.emitted
    }

    /// Marks the first `n` elements of the current window as consumed.
    pub fn advance(&mut self, n: usize)
        requires
            old(self).wf(),
            n <= old(self).remaining(),
            0 < old(self).remaining(),
        ensures
            final(self).wf(),
            final(self).stream == old(self).stream,
            final(self).size == old(self).size,
            final(self).consumed() == old(self).consumed() + n,
            final(self).rest() == crate::flow::consume(old(self).rest(), n as nat),
    {
        proof {
            self.lemma_rest();
            if let Some((batch, _)) = &self.pending {
                let n = crate::ops::parts(*batch, self.stream.progress().form).len();
                let size = self.size;
                batch.lemma_wf();
                assert(n <= n * size) by (nonlinear_arith)
                    requires
                        size > 0,
                ;
            }
        }
        let ghost tail = self.stream.progress().rest();
        if let Some((_, offset)) = &mut self.pending {
            *offset = *offset + n;
        }
        proof {
            let left = (old(self).remaining() - n) as nat;
            assert((seq![old(self).remaining()] + tail).skip(1) =~= tail);
            assert((seq![old(self).remaining()] + tail).update(0, left) =~= seq![left] + tail);
        }
    }
}

/// Stream combining two upstreams element-wise. The upstreams' batches need
/// not line up: each pull consumes the overlap of the two current batches
/// (re-chunking), so the output batch size is the smaller of the two windows
/// and memory stays bounded.
pub struct ZipStream {
    pub left: Chunked,
    pub right: Chunked,
    pub op: Zipper,
    pub progress: Ghost<Progress>,
}

impl ZipStream {
    pub open spec fn wf(self) -> bool
        decreases self,
    {
        let left = self.left.stream.progress();
        let right = self.right.stream.progress();
        &&& self.left.wf()
        &&& self.right.wf()
        &&& self.progress@.ok()
        &&& self.progress@.flow == zip_flow(self.op, left.flow, right.flow)
        &&& self.progress@.form == self.op.form()
        &&& self.op.takes_left() == left.form
        &&& self.op.takes_right() == right.form
        &&& self.left.consumed() == self.progress@.emitted.len()
        &&& self.right.consumed() == self.progress@.emitted.len()
        &&& self.progress@.rest() == crate::flow::merged_layout(self.left.rest(), self.right.rest())
        &&& crate::flow::zip_related(
            left.emitted,
            right.emitted,
            self.progress@.emitted,
            zip_gives(self.op),
        )
        &&& left.depth < self.progress@.depth
        &&& right.depth < self.progress@.depth
    }

    pub fn new(left: Chunked, right: Chunked, op: Zipper) -> (stream: Self)
        requires
            left.wf(),
            right.wf(),
            left.consumed() == 0,
            right.consumed() == 0,
            left.rest() == left.stream.progress().flow.layout,
            right.rest() == right.stream.progress().flow.layout,
            op.takes_left() == left.stream.progress().form,
            op.takes_right() == right.stream.progress().form,
            op.form().size > 0,
            op.form().align > 0,
            op.form().size % op.form().align == 0,
            zip_flow(op, left.stream.progress().flow, right.stream.progress().flow).safe,
            zip_flow(op, left.stream.progress().flow, right.stream.progress().flow).fits,
        ensures
            stream.wf(),
            exists|depth: nat|
                stream.progress@ == #[trigger] Progress::fresh(
                    zip_flow(op, left.stream.progress().flow, right.stream.progress().flow),
                    op.form(),
                    depth,
                ),
    {
        let ghost l = left.stream.progress();
        let ghost r = right.stream.progress();
        let ghost flow = zip_flow(op, l.flow, r.flow);
        let ghost form = op.form();
        let ghost depth = l.depth + r.depth + 1;
        proof {
            crate::flow::lemma_merged_layout(l.flow.layout, r.flow.layout);
            assert(flow.layout.take(0) =~= Seq::empty());
            assert(flow.layout.skip(0) =~= flow.layout);
            assert(crate::flow::zip_related(
                l.emitted,
                r.emitted,
                Seq::<Seq<u8>>::empty(),
                zip_gives(op),
            ));
            assert((l.flow.emits)(l.emitted));
            assert((r.flow.emits)(r.emitted));
            assert((flow.emits)(Seq::<Seq<u8>>::empty()));
        }
        ZipStream { left, right, op, progress: Ghost(Progress::fresh(flow, form, depth)) }
    }

    #[verifier::rlimit(30)]
    pub fn next_batch(&mut self) -> (result: Result<Option<Storage>, EngineError>)
        requires
            old(self).wf(),
        ensures
            result is Ok ==> final(self).wf(),
            old(self).progress@.pulled(final(self).progress@, result),
        decreases old(self).progress@.depth, 0nat,
    {
        let ghost before = self.progress@;
        proof {
            self.left.lemma_rest();
            self.right.lemma_rest();
            crate::flow::lemma_positive_total(self.left.rest());
            crate::flow::lemma_positive_total(self.right.rest());
        }
        let left = match self.left.peek() {
            Ok(window) => window,
            Err(error) => {
                return Err(error);
            },
        };
        let right = match self.right.peek() {
            Ok(window) => window,
            Err(error) => {
                return Err(error);
            },
        };
        match (left, right) {
            (None, None) => Ok(None),
            (Some(_), None) | (None, Some(_)) => Err(EngineError::LengthMismatch),
            (Some(l), Some(r)) => {
                let ghost lp = self.left.stream.progress();
                let ghost rp = self.right.stream.progress();
                let l_len: usize = l.len() / self.left.size;
                let r_len: usize = r.len() / self.right.size;
                let ghost l_rest = self.left.rest();
                let ghost r_rest = self.right.rest();
                proof {
                    crate::chunks::lemma_whole_chunks(l_rest[0], lp.form.size);
                    crate::chunks::lemma_whole_chunks(r_rest[0], rp.form.size);
                }
                let n: usize = if l_len <= r_len {
                    l_len
                } else {
                    r_len
                };
                proof {
                    assert(n == crate::flow::overlap(l_rest, r_rest));
                    crate::chunks::lemma_chunks_subrange(l@, lp.form.size, 0, n as int);
                    crate::chunks::lemma_chunks_subrange(r@, rp.form.size, 0, n as int);
                    l.lemma_wf();
                    r.lemma_wf();
                }
                let l_window = l.slice(0, n * self.left.size);
                let r_window = r.slice(0, n * self.right.size);
                let ghost ls = crate::ops::parts(l_window, lp.form);
                let ghost rs = crate::ops::parts(r_window, rp.form);
                proof {
                    assert(before.rest().len() > 0);
                    assert(before.rest()[0] == n);
                    assert(before.rest()[0] == before.flow.layout[before.done as int]);
                    assert((room_for(self.op.form()))(before.flow.layout[before.done as int]));
                    assert((lp.flow.emits)(lp.emitted));
                    assert((rp.flow.emits)(rp.emitted));
                    let at = before.emitted.len();
                    assert forall|i: int| 0 <= i < n implies ls[i] == lp.emitted[at + i] && rs[i]
                        == rp.emitted[at + i] by {
                        assert(ls[i] == crate::ops::parts(l, lp.form)[i]);
                        assert(rs[i] == crate::ops::parts(r, rp.form)[i]);
                    }
                    let accepts = zip_accepts(self.op);
                    assert forall|i: int| 0 <= i < n implies self.op.accepts(
                        #[trigger] ls[i],
                        rs[i],
                    ) by {
                        assert(accepts(lp.emitted[at + i], rp.emitted[at + i]));
                    }
                }
                let out = self.op.op.apply(&l_window, &r_window);
                self.left.advance(n);
                self.right.advance(n);
                proof {
                    let at = before.emitted.len();
                    let outs = crate::ops::parts(out, before.form);
                    let all = before.emitted + outs;
                    let gives = zip_gives(self.op);
                    assert forall|i: int| 0 <= i < all.len() implies gives(
                        lp.emitted[i],
                        rp.emitted[i],
                        #[trigger] all[i],
                    ) by {
                        if i < at {
                            let l0 = old(self).left.stream.progress().emitted;
                            let r0 = old(self).right.stream.progress().emitted;
                            assert(gives(l0[i], r0[i], before.emitted[i]));
                            assert(lp.emitted.take(l0.len() as int)[i] == l0[i]);
                            assert(rp.emitted.take(r0.len() as int)[i] == r0[i]);
                        } else {
                            let j = i - at;
                            assert(self.op.gives(ls[j], rs[j], outs[j]));
                        }
                    }
                    assert(crate::flow::zip_related(lp.emitted, rp.emitted, all, gives));
                    before.lemma_advanced(out);
                    self.progress@ = before.advanced(out);
                    assert(self.progress@.rest() =~= crate::flow::merged_layout(
                        self.left.rest(),
                        self.right.rest(),
                    ));
                }
                Ok(Some(out))
            },
        }
    }
}

} // verus!
