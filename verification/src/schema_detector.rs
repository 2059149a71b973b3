//! Automatic schema detection as a pipeline stage.
//!
//! Buffers a configurable number of lines, infers their schema, then hands
//! the buffered lines on; after that every line passes straight through.

use vstd::prelude::*;
use crate::schema::{self, FieldInfo, Schema};

verus! {

/// What one `feed` does, from the state `(ready, buffered)`: the new state
/// and the lines handed on.
pub open spec fn feed_step(ready: bool, buffered: Seq<Seq<char>>, sample_size: nat, line: Seq<char>) -> (
    bool,
    Seq<Seq<char>>,
    Seq<Seq<char>>,
) {
    if ready {
        (true, buffered, seq![line])
    } else if buffered.len() + 1 >= sample_size {
        (true, Seq::empty(), buffered.push(line))
    } else {
        (false, buffered.push(line), Seq::empty())
    }
}

/// Feeding `lines` one by one: the final state and everything handed on,
/// in order.
pub open spec fn feed_all(ready: bool, buffered: Seq<Seq<char>>, sample_size: nat, lines: Seq<Seq<char>>) -> (
    bool,
    Seq<Seq<char>>,
    Seq<Seq<char>>,
)
    decreases lines.len(),
{
    if lines.len() == 0 {
        (ready, buffered, Seq::empty())
    } else {
        let (r, b, out) = feed_all(ready, buffered, sample_size, lines.drop_last());
        let (r2, b2, out2) = feed_step(r, b, sample_size, lines.last());
        (r2, b2, out + out2)
    }
}

/// No line is lost, duplicated or reordered: what a detector hands on while
/// it is fed, followed by what it still buffers, is what it buffered before
/// followed by the lines fed. (A detector with a schema buffers nothing.)
pub proof fn lemma_feed_all_keeps_lines(
    ready: bool,
    buffered: Seq<Seq<char>>,
    sample_size: nat,
    lines: Seq<Seq<char>>,
)
    requires
        ready ==> buffered.len() == 0,
    ensures
        feed_all(ready, buffered, sample_size, lines).0 ==> feed_all(
            ready,
            buffered,
            sample_size,
            lines,
        ).1.len() == 0,
        feed_all(ready, buffered, sample_size, lines).2 + feed_all(
            ready,
            buffered,
            sample_size,
            lines,
        ).1 == buffered + lines,
    decreases lines.len(),
{
    if lines.len() > 0 {
        lemma_feed_all_keeps_lines(ready, buffered, sample_size, lines.drop_last());
        let (r, b, out) = feed_all(ready, buffered, sample_size, lines.drop_last());
        let (r2, b2, out2) = feed_step(r, b, sample_size, lines.last());
        assert(out + b == buffered + lines.drop_last());
        if r {
            assert(out2 + b2 =~= b.push(lines.last()));
        } else if b.len() + 1 >= sample_size {
            assert(out2 + b2 =~= b.push(lines.last()));
        } else {
            assert(out2 + b2 =~= b.push(lines.last()));
        }
        assert(buffered + lines =~= (buffered + lines.drop_last()).push(lines.last()));
        assert(out + out2 + b2 =~= (out + b).push(lines.last()));
    } else {
        assert(buffered + lines =~= buffered);
        assert(Seq::<Seq<char>>::empty() + buffered =~= buffered);
    }
}

/// The lines by their characters.
pub open spec fn texts(v: Seq<String>) -> Seq<Seq<char>> {
    v.map_values(|s: String| s@)
}

/// Buffers lines until the sample is complete, then infers their schema.
#[derive(Debug)]
pub struct SchemaDetector {
    sample_size: usize,
    buffer: Vec<String>,
    schema: Option<Schema>,
    emitted_buffer: bool,
}

impl SchemaDetector {
    /// How many lines make a sample.
    pub closed spec fn sample_size(&self) -> nat {
        self.sample_size as nat
    }

    /// The lines held back so far.
    pub closed spec fn buffered(&self) -> Seq<Seq<char>> {
        texts(self.buffer@)
    }

    /// The inferred schema, once there is one.
    pub closed spec fn schema_view(&self) -> Option<Seq<(Seq<char>, FieldInfo)>> {
        match self.schema {
            Some(s) => Some(s.infos()),
            None => None,
        }
    }

    /// The schema has been inferred.
    pub open spec fn ready(&self) -> bool {
        self.schema_view() is Some
    }

    /// Well-formedness: the timestamp check can read every buffered line, and
    /// nothing is buffered once the schema is known.
    pub closed spec fn wf(&self) -> bool {
        &&& forall|i: int|
            0 <= i < self.buffer@.len() ==> schema::line_checkable(#[trigger] self.buffer@[i]@)
        &&& self.schema is Some ==> self.buffer@.len() == 0 && self.schema->0.fields.wf()
    }

    /// A well-formed detector with a schema buffers nothing.
    pub proof fn lemma_ready_buffers_nothing(&self)
        requires
            self.wf(),
        ensures
            self.ready() ==> self.buffered().len() == 0,
    {
    }

    /// A detector that infers the schema from the first `sample_size` lines.
    pub fn new(sample_size: usize) -> (d: Self)
        ensures
            d.wf(),
            d.sample_size() == sample_size,
            d.buffered() == Seq::<Seq<char>>::empty(),
            !d.ready(),
    {
        let d = SchemaDetector {
            sample_size,
            buffer: Vec::new(),
            schema: None,
            emitted_buffer: false,
        };
        assert(d.buffered() =~= Seq::<Seq<char>>::empty());
        d
    }

    fn finalize_schema(&mut self)
        requires
            old(self).wf(),
            old(self).schema is None,
        ensures
            final(self).sample_size == old(self).sample_size,
            final(self).buffer == old(self).buffer,
            final(self).emitted_buffer == old(self).emitted_buffer,
            final(self).schema matches Some(s) && s.fields.wf() && s.infos()
                == schema::observe_lines(Seq::empty(), texts(old(self).buffer@)),
    {
        let mut refs: Vec<&str> = Vec::new();
        for i in 0..self.buffer.len()
            invariant
                refs@.len() == i,
                forall|j: int| 0 <= j < i ==> (#[trigger] refs@[j])@ == self.buffer@[j]@,
        {
            refs.push(self.buffer[i].as_str());
        }
        assert(schema::line_views(refs@) =~= texts(self.buffer@));
        let mut s = Schema::new();
        proof {
            assert(s.infos() =~= Seq::<(Seq<char>, FieldInfo)>::empty());
            assert forall|i: int| 0 <= i < refs@.len() implies schema::line_checkable(
                #[trigger] refs@[i]@,
            ) by {
                assert(refs@[i]@ == self.buffer@[i]@);
            }
        }
        s.infer_from_lines(refs.as_slice());
        self.schema = Some(s);
    }

    /// Feeds a line; returns the lines ready to go on. Once the sample is
    /// complete the schema is fixed and every later line passes through.
    pub fn feed(&mut self, line: String) -> (out: Vec<String>)
        requires
            old(self).wf(),
            !old(self).ready() ==> schema::line_checkable(line@),
        ensures
            final(self).wf(),
            fed(*old(self), *final(self), line@, texts(out@)),
            final(self).sample_size() == old(self).sample_size(),
            (final(self).ready(), final(self).buffered(), texts(out@)) == feed_step(
                old(self).ready(),
                old(self).buffered(),
                old(self).sample_size(),
                line@,
            ),
            !old(self).ready() && final(self).ready() ==> final(self).schema_view() == Some(
                schema::observe_lines(Seq::empty(), old(self).buffered().push(line@)),
            ),
            old(self).ready() ==> final(self).schema_view() == old(self).schema_view(),
    {
        if self.schema.is_none() {
            self.buffer.push(line);
            assert(texts(self.buffer@) =~= texts(old(self).buffer@).push(line@));
            if self.buffer.len() >= self.sample_size {
                self.finalize_schema();
                let mut drained: Vec<String> = Vec::new();
                std::mem::swap(&mut drained, &mut self.buffer);
                self.emitted_buffer = true;
                assert(texts(self.buffer@) =~= Seq::<Seq<char>>::empty());
                return drained;
            }
            let out: Vec<String> = Vec::new();
            assert(texts(out@) =~= Seq::<Seq<char>>::empty());
            return out;
        }
        let mut out: Vec<String> = Vec::new();
        out.push(line);
        assert(texts(out@) =~= seq![line@]);
        out
    }

    /// Feeds a line; before the schema is known, only when the timestamp
    /// check can read all its string values, otherwise the detector is left
    /// as it is and `None` returned.
    pub fn try_feed(&mut self, line: String) -> (r: Option<Vec<String>>)
        requires
            old(self).wf(),
        ensures
            final(self).wf(),
            r is Some == (old(self).ready() || schema::line_checkable(line@)),
            r is None ==> *final(self) == *old(self),
            final(self).sample_size() == old(self).sample_size(),
            r matches Some(out) ==> (final(self).ready(), final(self).buffered(), texts(out@))
                == feed_step(old(self).ready(), old(self).buffered(), old(self).sample_size(), line@),
            r is Some && !old(self).ready() && final(self).ready() ==> final(self).schema_view()
                == Some(schema::observe_lines(Seq::empty(), old(self).buffered().push(line@))),
            old(self).ready() ==> final(self).schema_view() == old(self).schema_view(),
    {
        if self.schema.is_some() || schema::line_is_checkable(line.as_str()) {
            Some(self.feed(line))
        } else {
            None
        }
    }

    /// Hands on the buffered lines at the end of input, inferring the schema
    /// from them first when there is none yet.
    pub fn flush(&mut self) -> (out: Vec<String>)
        requires
            old(self).wf(),
        ensures
            final(self).wf(),
            final(self).sample_size() == old(self).sample_size(),
            texts(out@) == old(self).buffered(),
            final(self).buffered() == Seq::<Seq<char>>::empty(),
            final(self).ready() == (old(self).ready() || old(self).buffered().len() > 0),
            !old(self).ready() && old(self).buffered().len() > 0 ==> final(self).schema_view()
                == Some(schema::observe_lines(Seq::empty(), old(self).buffered())),
            old(self).ready() ==> final(self).schema_view() == old(self).schema_view(),
    {
        if self.schema.is_none() && self.buffer.len() > 0 {
            self.finalize_schema();
        }
        let mut drained: Vec<String> = Vec::new();
        std::mem::swap(&mut drained, &mut self.buffer);
        assert(texts(self.buffer@) =~= Seq::<Seq<char>>::empty());
        drained
    }

    /// The inferred schema, once there is one.
    pub fn schema(&self) -> (r: Option<&Schema>)
        ensures
            r is Some == self.ready(),
            r matches Some(s) ==> Some(s.infos()) == self.schema_view(),
    {
        self.schema.as_ref()
    }

    /// Whether the schema has been inferred.
    pub fn is_ready(&self) -> (b: bool)
        ensures
            b == self.ready(),
    {
        self.schema.is_some()
    }
}

/// One `feed` of `line` from `before` to `after`, handing on `out`.
pub open spec fn fed(before: SchemaDetector, after: SchemaDetector, line: Seq<char>, out: Seq<Seq<char>>) -> bool {
    &&& after.sample_size() == before.sample_size()
    &&& (after.ready(), after.buffered(), out) == feed_step(
        before.ready(),
        before.buffered(),
        before.sample_size(),
        line,
    )
}

/// Everything handed on by a run of feeds, in order.
pub open spec fn joined(outs: Seq<Seq<Seq<char>>>) -> Seq<Seq<char>>
    decreases outs.len(),
{
    if outs.len() == 0 {
        Seq::empty()
    } else {
        joined(outs.drop_last()) + outs.last()
    }
}

/// Over any run of feeds, what the detector hands on followed by what it
/// still buffers is what it buffered at the start followed by every line
/// fed: no line is lost, duplicated or reordered, and `flush` hands on the
/// rest.
pub proof fn lemma_feed_run(run: Seq<SchemaDetector>, lines: Seq<Seq<char>>, outs: Seq<Seq<Seq<char>>>)
    requires
        run.len() == lines.len() + 1,
        outs.len() == lines.len(),
        run[0].ready() ==> run[0].buffered().len() == 0,
        forall|i: int| 0 <= i < lines.len() ==> #[trigger] fed(run[i], run[i + 1], lines[i], outs[i]),
    ensures
        joined(outs) + run.last().buffered() == run[0].buffered() + lines,
        run.last().ready() ==> run.last().buffered().len() == 0,
    decreases lines.len(),
{
    if lines.len() == 0 {
        assert(run[0].buffered() + lines =~= run[0].buffered());
        assert(joined(outs) + run.last().buffered() =~= run.last().buffered());
    } else {
        let n = lines.len() - 1;
        let run0 = run.drop_last();
        let lines0 = lines.drop_last();
        let outs0 = outs.drop_last();
        assert forall|i: int| 0 <= i < lines0.len() implies #[trigger] fed(
            run0[i],
            run0[i + 1],
            lines0[i],
            outs0[i],
        ) by {
            assert(fed(run[i], run[i + 1], lines[i], outs[i]));
        }
        lemma_feed_run(run0, lines0, outs0);
        assert(fed(run[n], run[n + 1], lines[n], outs[n]));
        assert(run0.last() == run[n]);
        let b = run[n].buffered();
        assert(outs[n] + run[n + 1].buffered() =~= b.push(lines[n]));
        assert(joined(outs) == joined(outs0) + outs[n]);
        assert(joined(outs) + run.last().buffered() =~= (joined(outs0) + b).push(lines[n]));
        assert(run[0].buffered() + lines =~= (run[0].buffered() + lines0).push(lines[n]));
    }
}

} // verus!
