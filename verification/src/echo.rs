//! The echo handler's logic: what one connection's handler writes back,
//! read by read and over a whole session, as a function of the bytes the
//! reads return.

use vstd::prelude::*;

verus! {

/// Largest number of bytes a handler reads from its stream at once: the
/// size of its read buffer.
pub const MAX_READ: usize = 512;

/// The port the echo service listens on.
pub const LISTEN_PORT: u16 = 12345;

/// What the handler does after one read returned `n` bytes.
pub enum EchoAction {
    /// Write these bytes back to the same stream, then read again.
    Reply(Vec<u8>),
    /// The read returned no bytes: the peer closed its half of the
    /// stream, and the handler stops without error.
    Stop,
}

/// Everything the handler writes over one connection, given the byte
/// chunks its successive reads return: the chunks echoed back in order,
/// up to (not including) the first empty one, which ends the session.
pub open spec fn session_output(reads: Seq<Seq<u8>>) -> Seq<u8>
    decreases reads.len(),
{
    if reads.len() == 0 {
        Seq::empty()
    } else if reads.first().len() == 0 {
        Seq::empty()
    } else {
        reads.first() + session_output(reads.drop_first())
    }
}

/// One step of the echo handler: given the read buffer and the number of
/// bytes the last read placed in it, decide what to do next. A read of
/// zero bytes ends the session cleanly; any other read is answered with
/// exactly the bytes read, unmodified.
pub fn echo_step(buf: &Vec<u8>, n: usize) -> (r: EchoAction)
    requires
        n <= buf.len(),
    ensures
        (n == 0) == (r is Stop),
        r matches EchoAction::Reply(w) ==> w@ == buf@.subrange(0, n as int),
{
    if n == 0 {
        EchoAction::Stop
    } else {
        EchoAction::Reply(copy_range(buf, 0, n))
    }
}

/// A copy of `data[start..end]` as a fresh vector.
fn copy_range(data: &Vec<u8>, start: usize, end: usize) -> (r: Vec<u8>)
    requires
        start <= end <= data.len(),
    ensures
        r@ == data@.subrange(start as int, end as int),
{
    let mut out: Vec<u8> = Vec::new();
    let mut i: usize = start;
    while i < end
        invariant
            start <= i <= end <= data.len(),
            out@ == data@.subrange(start as int, i as int),
        decreases end - i,
    {
        out.push(data[i]);
        i = i + 1;
        proof {
            assert(out@ =~= data@.subrange(start as int, i as int));
        }
    }
    out
}

/// Runs a whole handler session on a finite trace of reads: each entry of
/// `reads` is what one read returned, in order. The result is everything
/// the handler wrote back before stopping at the first empty read (or
/// before exhausting the trace).
pub fn run_session(reads: &Vec<Vec<u8>>) -> (out: Vec<u8>)
    ensures
        out@ == session_output(reads@.map_values(|v: Vec<u8>| v@)),
{
    let ghost model: Seq<Seq<u8>> = reads@.map_values(|v: Vec<u8>| v@);
    let mut out: Vec<u8> = Vec::new();
    let mut i: usize = 0;
    proof {
        assert(model.skip(0) =~= model);
        assert(out@ + session_output(model) =~= session_output(model));
    }
    while i < reads.len()
        invariant
            i <= reads.len(),
            model == reads@.map_values(|v: Vec<u8>| v@),
            session_output(model) == out@ + session_output(model.skip(i as int)),
        decreases reads.len() - i,
    {
        let chunk = &reads[i];
        let n = chunk.len();
        proof {
            assert(model.skip(i as int).first() == model[i as int]);
        }
        match echo_step(chunk, n) {
            EchoAction::Stop => {
                proof {
                    assert(session_output(model.skip(i as int)) == Seq::<u8>::empty());
                    assert(out@ + session_output(model.skip(i as int)) =~= out@);
                }
                return out;
            },
            EchoAction::Reply(reply) => {
                let mut reply = reply;
                proof {
                    assert(reply@ =~= model[i as int]);
                    assert(model.skip(i as int).drop_first() =~= model.skip(i as int + 1));
                    assert((out@ + reply@) + session_output(model.skip(i as int + 1)) =~= out@
                        + session_output(model.skip(i as int)));
                }
                out.append(&mut reply);
            },
        }
        i = i + 1;
    }
    proof {
        assert(model.skip(reads.len() as int) =~= Seq::<Seq<u8>>::empty());
        assert(out@ + session_output(model.skip(reads.len() as int)) =~= out@);
    }
    out
}

/// Splits a message into the pieces a handler sees when no single read
/// returns more than `MAX_READ` bytes: full `MAX_READ`-byte chunks, then
/// a shorter final chunk for what is left. The chunks concatenate back to
/// the message, every chunk is nonempty, and only the final one may be
/// shorter than `MAX_READ`.
pub fn chunk_message(data: &Vec<u8>) -> (chunks: Vec<Vec<u8>>)
    ensures
        chunks@.map_values(|v: Vec<u8>| v@).flatten() == data@,
        forall|j: int| 0 <= j < chunks@.len() ==> 0 < (#[trigger] chunks@[j])@.len() <= MAX_READ,
        forall|j: int| 0 <= j < chunks@.len() - 1 ==> (#[trigger] chunks@[j])@.len() == MAX_READ,
{
    let mut chunks: Vec<Vec<u8>> = Vec::new();
    let mut pos: usize = 0;
    while data.len() - pos >= MAX_READ
        invariant
            pos <= data.len(),
            chunks@.map_values(|v: Vec<u8>| v@).flatten() == data@.subrange(0, pos as int),
            forall|j: int| 0 <= j < chunks@.len() ==> (#[trigger] chunks@[j])@.len() == MAX_READ,
            pos == chunks@.len() * MAX_READ,
        decreases data.len() - pos,
    {
        let chunk = copy_range(data, pos, pos + MAX_READ);
        proof {
            lemma_chunks_push(chunks@, chunk, data@, pos as int);
        }
        chunks.push(chunk);
        pos = pos + MAX_READ;
    }
    if pos < data.len() {
        let chunk = copy_range(data, pos, data.len());
        proof {
            lemma_chunks_push(chunks@, chunk, data@, pos as int);
            assert(data@.subrange(0, data@.len() as int) =~= data@);
        }
        chunks.push(chunk);
    } else {
        proof {
            assert(data@.subrange(0, pos as int) =~= data@);
        }
    }
    chunks
}

/// Pushing the copy of `data[pos..pos+len]` onto chunks whose flattening
/// is `data[0..pos]` gives chunks whose flattening is
/// `data[0..pos+len]`.
proof fn lemma_chunks_push(chunks: Seq<Vec<u8>>, chunk: Vec<u8>, data: Seq<u8>, pos: int)
    requires
        0 <= pos,
        pos + chunk@.len() <= data.len(),
        chunk@ == data.subrange(pos, pos + chunk@.len()),
        chunks.map_values(|v: Vec<u8>| v@).flatten() == data.subrange(0, pos),
    ensures
        chunks.push(chunk).map_values(|v: Vec<u8>| v@).flatten() == data.subrange(
            0,
            pos + chunk@.len(),
        ),
{
    let f = |v: Vec<u8>| v@;
    assert(chunks.push(chunk).map_values(f) =~= chunks.map_values(f).push(chunk@));
    chunks.map_values(f).lemma_flatten_push(chunk@);
    assert(data.subrange(0, pos) + data.subrange(pos, pos + chunk@.len()) =~= data.subrange(
        0,
        pos + chunk@.len(),
    ));
}

/// A session whose reads are all nonempty echoes back their entire
/// concatenation: a message that arrives split over several reads is
/// echoed back whole, content and order preserved.
pub proof fn lemma_session_echoes_chunks(reads: Seq<Seq<u8>>)
    requires
        forall|j: int| 0 <= j < reads.len() ==> (#[trigger] reads[j]).len() > 0,
    ensures
        session_output(reads) == reads.flatten(),
    decreases reads.len(),
{
    if reads.len() > 0 {
        assert(forall|j: int|
            0 <= j < reads.drop_first().len() ==> (#[trigger] reads.drop_first()[j]).len() > 0);
        lemma_session_echoes_chunks(reads.drop_first());
    }
}

/// One write of 1 to MAX_READ bytes is echoed back exactly and
/// unmodified: a session whose single read returns `s` writes back `s`.
pub proof fn lemma_single_message_echoed(s: Seq<u8>)
    requires
        0 < s.len() <= MAX_READ,
    ensures
        session_output(seq![s]) == s,
{
    assert(seq![s].first() == s);
    assert(seq![s].drop_first() =~= Seq::<Seq<u8>>::empty());
    assert(session_output(seq![s].drop_first()) == Seq::<u8>::empty());
    assert(s + Seq::<u8>::empty() =~= s);
}

/// A zero-length read (the peer half-closed) ends the session at once:
/// nothing more is written, whatever would have followed.
pub proof fn lemma_close_ends_session(reads: Seq<Seq<u8>>)
    requires
        reads.len() > 0,
        reads.first().len() == 0,
    ensures
        session_output(reads) == Seq::<u8>::empty(),
{
}

} // verus!
