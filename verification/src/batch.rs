use crate::error::ProtoCodecError;
use crate::stream::{write_bytes, write_var_u32, ByteReader};
use crate::varint::{
    lemma_uvar_parse_consumed, lemma_var_u32_roundtrip, uvar_encoding, var_u32_parse,
    MAX_GROUPS_32,
};
use vstd::prelude::*;

verus! {

/// The bytes of a batch: every frame in order, each behind its length in
/// variable-width form.
pub open spec fn batch_wire(frames: Seq<Seq<u8>>) -> Seq<u8>
    decreases frames.len(),
{
    if frames.len() == 0 {
        Seq::empty()
    } else {
        uvar_encoding(frames[0].len()) + frames[0] + batch_wire(frames.skip(1))
    }
}

/// The frames that `s` holds from position `at` on, each with the
/// position at which it starts (that of its length prefix).
///
/// Frames are read until the input is used up. Input that ends within a
/// length prefix or within a frame, or whose length prefix does not fit
/// 32 bits, is a `FormatMismatch`.
pub open spec fn batch_parse_from(s: Seq<u8>, at: nat) -> Result<
    Seq<(nat, Seq<u8>)>,
    ProtoCodecError,
>
    decreases s.len() - at,
{
    if at >= s.len() {
        Ok(Seq::empty())
    } else {
        match var_u32_parse(s.skip(at as int)) {
            Err(_) => Err(ProtoCodecError::FormatMismatch),
            Ok((len, k)) => {
                proof {
                    lemma_uvar_parse_consumed(s.skip(at as int), MAX_GROUPS_32 as nat);
                }
                if s.len() - at - k < len {
                    Err(ProtoCodecError::FormatMismatch)
                } else {
                    match batch_parse_from(s, at + k + len as nat) {
                        Ok(rest) => Ok(
                            seq![(at, s.subrange((at + k) as int, at + k + len))] + rest,
                        ),
                        Err(e) => Err(e),
                    }
                }
            },
        }
    }
}

/// The frames of a batch, in the order in which they stand in it.
pub open spec fn batch_parse(s: Seq<u8>) -> Result<Seq<(nat, Seq<u8>)>, ProtoCodecError> {
    batch_parse_from(s, 0)
}

/// One frame of a batch that was taken apart: where it starts and what it
/// holds.
#[derive(Debug, Clone, PartialEq, Eq)]
pub struct Frame {
    pub offset: usize,
    pub bytes: Vec<u8>,
}

impl View for Frame {
    type V = (nat, Seq<u8>);

    open spec fn view(&self) -> (nat, Seq<u8>) {
        (self.offset as nat, self.bytes@)
    }
}

/// The frames of `frames` as positions and bytes.
pub open spec fn frames_view(frames: Seq<Frame>) -> Seq<(nat, Seq<u8>)> {
    frames.map_values(|f: Frame| f@)
}

/// The bytes of each of `frames`.
pub open spec fn bodies_view(frames: Seq<Vec<u8>>) -> Seq<Seq<u8>> {
    frames.map_values(|f: Vec<u8>| f@)
}

/// Takes a batch apart into its frames, in order; see [`batch_parse`].
pub fn split_batch(batch: &[u8]) -> (r: Result<Vec<Frame>, ProtoCodecError>)
    ensures
        match batch_parse(batch@) {
            Ok(frames) => r is Ok && frames_view(r->Ok_0@) == frames,
            Err(e) => r == Err::<Vec<Frame>, ProtoCodecError>(e),
        },
{
    let mut reader: ByteReader = ByteReader::new(batch);
    let mut frames: Vec<Frame> = Vec::new();
    while !reader.is_exhausted()
        invariant
            reader.source() == batch@,
            reader.offset() <= batch@.len(),
            match batch_parse_from(batch@, reader.offset()) {
                Ok(rest) => batch_parse(batch@) == Ok::<Seq<(nat, Seq<u8>)>, ProtoCodecError>(
                    frames_view(frames@) + rest,
                ),
                Err(e) => batch_parse(batch@) == Err::<Seq<(nat, Seq<u8>)>, ProtoCodecError>(e),
            },
        decreases batch@.len() - reader.offset(),
    {
        let offset: usize = reader.position();
        let ghost s = batch@;
        let ghost done = frames_view(frames@);
        proof {
            lemma_uvar_parse_consumed(s.skip(offset as int), MAX_GROUPS_32 as nat);
        }
        let len: u32 = match reader.read_var_u32() {
            Ok(len) => len,
            Err(_) => {
                return Err(ProtoCodecError::FormatMismatch);
            },
        };
        let ghost k = reader.offset() - offset;
        let bytes: Vec<u8> = match reader.read_bytes(len as usize) {
            Ok(bytes) => bytes,
            Err(_) => {
                return Err(ProtoCodecError::FormatMismatch);
            },
        };
        proof {
            assert(s.skip(offset + k).take(len as int) =~= s.subrange(
                offset + k,
                offset + k + len,
            ));
            let frame = Frame { offset, bytes };
            assert(frames_view(frames@.push(frame)) =~= done.push(frame@));
            match batch_parse_from(s, (offset + k + len) as nat) {
                Ok(rest) => {
                    assert(done + (seq![frame@] + rest) =~= done.push(frame@) + rest);
                },
                Err(_) => {},
            }
        }
        frames.push(Frame { offset, bytes });
    }
    proof {
        assert(frames_view(frames@) + Seq::<(nat, Seq<u8>)>::empty() =~= frames_view(frames@));
    }
    Ok(frames)
}

/// Appends a batch made of `frames`, in order. A frame of more than
/// `u32::MAX` bytes has no length prefix: the batch is refused with
/// `Overflow` and nothing is written.
pub fn join_batch(frames: &Vec<Vec<u8>>, out: &mut Vec<u8>) -> (r: Result<(), ProtoCodecError>)
    ensures
        match r {
            Ok(_) => final(out)@ == old(out)@ + batch_wire(bodies_view(frames@)) && forall|
                i: int,
            |
                0 <= i < frames@.len() ==> (#[trigger] frames@[i])@.len() <= u32::MAX,
            Err(e) => e == ProtoCodecError::Overflow && final(out)@ == old(out)@ && exists|
                i: int,
            |
                0 <= i < frames@.len() && (#[trigger] frames@[i])@.len() > u32::MAX,
        },
{
    let mut j: usize = 0;
    while j < frames.len()
        invariant
            j <= frames@.len(),
            forall|i: int| 0 <= i < j ==> (#[trigger] frames@[i])@.len() <= u32::MAX,
        decreases frames@.len() - j,
    {
        if frames[j].len() > u32::MAX as usize {
            return Err(ProtoCodecError::Overflow);
        }
        j = j + 1;
    }
    let ghost bodies = bodies_view(frames@);
    let mut i: usize = 0;
    proof {
        assert(bodies.skip(0) =~= bodies);
    }
    while i < frames.len()
        invariant
            i <= frames@.len(),
            bodies == bodies_view(frames@),
            forall|i: int| 0 <= i < frames@.len() ==> (#[trigger] frames@[i])@.len() <= u32::MAX,
            out@ + batch_wire(bodies.skip(i as int)) == old(out)@ + batch_wire(bodies),
        decreases frames@.len() - i,
    {
        let ghost before = out@;
        let frame: &Vec<u8> = &frames[i];
        write_var_u32(out, frame.len() as u32);
        write_bytes(out, frame.as_slice());
        proof {
            let tail = bodies.skip(i as int);
            assert(tail[0] == frame@);
            assert(tail.skip(1) =~= bodies.skip(i + 1));
            assert(out@ + batch_wire(bodies.skip(i + 1)) =~= before + batch_wire(tail));
        }
        i = i + 1;
    }
    proof {
        assert(batch_wire(bodies.skip(i as int)) =~= Seq::<u8>::empty());
        assert(out@ + Seq::<u8>::empty() =~= out@);
    }
    Ok(())
}

/// The frames of `frames` as they come out of a batch that starts at
/// position `at`: each with the position its length prefix has there.
pub open spec fn placed(frames: Seq<Seq<u8>>, at: nat) -> Seq<(nat, Seq<u8>)>
    decreases frames.len(),
{
    if frames.len() == 0 {
        Seq::empty()
    } else {
        seq![(at, frames[0])] + placed(
            frames.skip(1),
            at + uvar_encoding(frames[0].len()).len() + frames[0].len(),
        )
    }
}

/// Placing frames keeps their number, their order and their bytes.
pub proof fn lemma_placed_keeps_frames(frames: Seq<Seq<u8>>, at: nat)
    ensures
        placed(frames, at).len() == frames.len(),
        forall|i: int| 0 <= i < frames.len() ==> (#[trigger] placed(frames, at)[i]).1 == frames[i],
    decreases frames.len(),
{
    if frames.len() > 0 {
        let next = at + uvar_encoding(frames[0].len()).len() + frames[0].len();
        lemma_placed_keeps_frames(frames.skip(1), next);
        assert forall|i: int| 0 <= i < frames.len() implies (#[trigger] placed(frames, at)[i]).1
            == frames[i] by {
            if i > 0 {
                assert(placed(frames, at)[i] == placed(frames.skip(1), next)[i - 1]);
                assert(frames.skip(1)[i - 1] == frames[i]);
            }
        }
    }
}

/// A batch that was written after any `prefix` is read back, from the end
/// of the prefix on, as the frames it was written from.
pub proof fn lemma_batch_roundtrip_from(prefix: Seq<u8>, frames: Seq<Seq<u8>>)
    requires
        forall|i: int| 0 <= i < frames.len() ==> (#[trigger] frames[i]).len() <= u32::MAX,
    ensures
        batch_parse_from(prefix + batch_wire(frames), prefix.len()) == Ok::<
            Seq<(nat, Seq<u8>)>,
            ProtoCodecError,
        >(placed(frames, prefix.len())),
    decreases frames.len(),
{
    let s = prefix + batch_wire(frames);
    if frames.len() == 0 {
        assert(s =~= prefix);
    } else {
        let head = uvar_encoding(frames[0].len());
        let body = frames[0];
        let tail = batch_wire(frames.skip(1));
        let at = prefix.len();
        lemma_var_u32_roundtrip(body.len() as u32, body + tail);
        assert(s.skip(at as int) =~= head + (body + tail));
        assert(s.subrange((at + head.len()) as int, (at + head.len() + body.len()) as int) =~= body);
        assert forall|i: int| 0 <= i < frames.skip(1).len() implies (#[trigger] frames.skip(
            1,
        )[i]).len() <= u32::MAX by {
            assert(frames.skip(1)[i] == frames[i + 1]);
        }
        lemma_batch_roundtrip_from(prefix + head + body, frames.skip(1));
        assert(prefix + head + body + tail =~= s);
    }
}

/// Frames written into one batch come out of it in the order in which
/// they went in, each with the bytes it had.
pub proof fn lemma_batch_order(frames: Seq<Seq<u8>>)
    requires
        forall|i: int| 0 <= i < frames.len() ==> (#[trigger] frames[i]).len() <= u32::MAX,
    ensures
        batch_parse(batch_wire(frames)) matches Ok(parsed) && parsed.len() == frames.len()
            && forall|i: int| 0 <= i < frames.len() ==> (#[trigger] parsed[i]).1 == frames[i],
{
    lemma_batch_roundtrip_from(Seq::empty(), frames);
    assert(Seq::<u8>::empty() + batch_wire(frames) =~= batch_wire(frames));
    lemma_placed_keeps_frames(frames, 0);
}

} // verus!
