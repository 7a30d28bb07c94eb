use vstd::prelude::*;

verus! {

// The transfer engine moves an archive's bytes across the transport in
// bounded chunks, outside the message framer: the payload has no known
// final length, so it travels raw, and its end is the transport's own
// end-of-stream. Memory stays proportional to the chunk size, not to the
// archive.

/// The archive bytes cut into chunks of at most `size` bytes each: every
/// chunk but the last is exactly `size` long, and none is empty.
pub open spec fn chunks_of(data: Seq<u8>, size: int) -> Seq<Seq<u8>>
    recommends
        size >= 1,
    decreases data.len(),
    when size >= 1
{
    if data.len() == 0 {
        Seq::empty()
    } else if data.len() <= size {
        seq![data]
    } else {
        seq![data.subrange(0, size)] + chunks_of(data.subrange(size, data.len() as int), size)
    }
}

/// The bytes a receiver holds after appending every chunk in order.
pub open spec fn concat_chunks(cs: Seq<Seq<u8>>) -> Seq<u8>
    decreases cs.len(),
{
    if cs.len() == 0 {
        Seq::empty()
    } else {
        cs[0] + concat_chunks(cs.drop_first())
    }
}

pub proof fn lemma_concat_chunks_push(cs: Seq<Seq<u8>>, c: Seq<u8>)
    ensures
        concat_chunks(cs.push(c)) == concat_chunks(cs) + c,
    decreases cs.len(),
{
    if cs.len() == 0 {
        assert(cs.push(c)[0] == c);
        assert(cs.push(c).drop_first() =~= Seq::<Seq<u8>>::empty());
        assert(concat_chunks(Seq::<Seq<u8>>::empty()) == Seq::<u8>::empty());
        assert(c + Seq::<u8>::empty() =~= c);
        assert(Seq::<u8>::empty() + c =~= c);
    } else {
        assert(cs.push(c)[0] == cs[0]);
        assert(cs.push(c).drop_first() =~= cs.drop_first().push(c));
        lemma_concat_chunks_push(cs.drop_first(), c);
        assert(cs[0] + (concat_chunks(cs.drop_first()) + c) =~= (cs[0] + concat_chunks(
            cs.drop_first(),
        )) + c);
    }
}

/// Stream fidelity: cutting the archive into bounded chunks and
/// reassembling them in order yields the same bytes in the same order,
/// whatever chunk size the sender used.
pub proof fn lemma_stream_fidelity(data: Seq<u8>, size: int)
    requires
        size >= 1,
    ensures
        concat_chunks(chunks_of(data, size)) == data,
    decreases data.len(),
{
    if data.len() == 0 {
        assert(concat_chunks(chunks_of(data, size)) =~= data);
    } else if data.len() <= size {
        assert(seq![data][0] == data);
        assert(seq![data].drop_first() =~= Seq::<Seq<u8>>::empty());
        assert(concat_chunks(Seq::<Seq<u8>>::empty()) == Seq::<u8>::empty());
        assert(data + Seq::<u8>::empty() =~= data);
    } else {
        let head = data.subrange(0, size);
        let tail = data.subrange(size, data.len() as int);
        lemma_stream_fidelity(tail, size);
        assert((seq![head] + chunks_of(tail, size))[0] == head);
        assert((seq![head] + chunks_of(tail, size)).drop_first() =~= chunks_of(tail, size));
        assert(head + tail =~= data);
    }
}

/// Append one received chunk to the sink, unchanged and in order: the
/// receiving side's write of `receive_stream`.
pub fn append_bytes(sink: &mut Vec<u8>, chunk: &[u8])
    ensures
        final(sink)@ == old(sink)@ + chunk@,
{
    let mut i: usize = 0;
    while i < chunk.len()
        invariant
            i <= chunk@.len(),
            sink@ == old(sink)@ + chunk@.subrange(0, i as int),
        decreases chunk@.len() - i,
    {
        sink.push(chunk[i]);
        proof {
            assert(chunk@.subrange(0, i + 1 as int) =~= chunk@.subrange(0, i as int).push(
                chunk@[i as int],
            ));
            assert(sink@ =~= old(sink)@ + chunk@.subrange(0, i + 1 as int));
        }
        i += 1;
    }
    proof {
        assert(chunk@.subrange(0, chunk@.len() as int) =~= chunk@);
    }
}

/// Cut the archive bytes into chunks of at most `size` bytes, in order.
pub fn split_into_chunks(data: &[u8], size: usize) -> (r: Vec<Vec<u8>>)
    requires
        size >= 1,
    ensures
        r@.map_values(|c: Vec<u8>| c@) == chunks_of(data@, size as int),
{
    let mut r: Vec<Vec<u8>> = Vec::new();
    let mut off: usize = 0;
    proof {
        assert(r@.map_values(|c: Vec<u8>| c@) =~= Seq::<Seq<u8>>::empty());
        assert(data@.subrange(0, data@.len() as int) =~= data@);
        assert(Seq::<Seq<u8>>::empty() + chunks_of(data@, size as int) =~= chunks_of(
            data@,
            size as int,
        ));
    }
    while off < data.len()
        invariant
            size >= 1,
            off <= data@.len(),
            chunks_of(data@, size as int) == r@.map_values(|c: Vec<u8>| c@) + chunks_of(
                data@.subrange(off as int, data@.len() as int),
                size as int,
            ),
        decreases data@.len() - off,
    {
        let remaining = data.len() - off;
        let end = if remaining <= size {
            data.len()
        } else {
            off + size
        };
        let chunk = vstd::slice::slice_to_vec(vstd::slice::slice_subrange(data, off, end));
        proof {
            let rem = data@.subrange(off as int, data@.len() as int);
            assert(rem.subrange(0, (end - off) as int) =~= data@.subrange(off as int, end as int));
            assert(rem.subrange((end - off) as int, rem.len() as int) =~= data@.subrange(
                end as int,
                data@.len() as int,
            ));
            assert((r@.push(chunk)).map_values(|c: Vec<u8>| c@) =~= r@.map_values(
                |c: Vec<u8>| c@,
            ).push(chunk@));
            assert(r@.map_values(|c: Vec<u8>| c@).push(chunk@) + chunks_of(
                data@.subrange(end as int, data@.len() as int),
                size as int,
            ) =~= r@.map_values(|c: Vec<u8>| c@) + (seq![chunk@] + chunks_of(
                data@.subrange(end as int, data@.len() as int),
                size as int,
            )));
        }
        r.push(chunk);
        off = end;
    }
    proof {
        assert(data@.subrange(off as int, data@.len() as int) =~= Seq::<u8>::empty());
        assert(r@.map_values(|c: Vec<u8>| c@) + Seq::<Seq<u8>>::empty() =~= r@.map_values(
            |c: Vec<u8>| c@,
        ));
    }
    r
}

/// Reassemble received chunks in order into the archive bytes.
pub fn assemble_chunks(chunks: &Vec<Vec<u8>>) -> (r: Vec<u8>)
    ensures
        r@ == concat_chunks(chunks@.map_values(|c: Vec<u8>| c@)),
{
    let views = Ghost(chunks@.map_values(|c: Vec<u8>| c@));
    let mut r: Vec<u8> = Vec::new();
    let mut i: usize = 0;
    while i < chunks.len()
        invariant
            i <= chunks@.len(),
            views@ == chunks@.map_values(|c: Vec<u8>| c@),
            r@ == concat_chunks(views@.take(i as int)),
        decreases chunks@.len() - i,
    {
        append_bytes(&mut r, chunks[i].as_slice());
        proof {
            assert(views@.take(i + 1 as int) =~= views@.take(i as int).push(views@[i as int]));
            lemma_concat_chunks_push(views@.take(i as int), views@[i as int]);
        }
        i += 1;
    }
    proof {
        assert(views@.take(views@.len() as int) =~= views@);
    }
    r
}

/// Move every byte of the source into the sink, reading in bounded
/// chunks: the sender's loop of `send_stream` run against the receiver's
/// loop of `receive_stream` over an in-order transport.
pub fn pump_stream(source: &[u8], size: usize, sink: &mut Vec<u8>)
    requires
        size >= 1,
    ensures
        final(sink)@ == old(sink)@ + source@,
{
    let mut off: usize = 0;
    while off < source.len()
        invariant
            size >= 1,
            off <= source@.len(),
            sink@ == old(sink)@ + source@.subrange(0, off as int),
        decreases source@.len() - off,
    {
        let remaining = source.len() - off;
        let end = if remaining <= size {
            source.len()
        } else {
            off + size
        };
        append_bytes(sink, vstd::slice::slice_subrange(source, off, end));
        proof {
            assert(source@.subrange(0, off as int) + source@.subrange(off as int, end as int)
                =~= source@.subrange(0, end as int));
        }
        off = end;
    }
    proof {
        assert(source@.subrange(0, source@.len() as int) =~= source@);
    }
}

} // verus!
