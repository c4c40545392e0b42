use crate::codec::ProtoCodec;
use crate::error::ProtoCodecError;
use crate::stream::ByteReader;
use crate::text::text_parse;
use vstd::prelude::*;

verus! {

/// One entry of a resource pack stack: which pack, in which version, and
/// which of its sub-packs.
#[derive(Debug, Clone, PartialEq, Eq)]
pub struct ResourcePacksStackPack {
    pub id: String,
    pub version: String,
    pub sub_pack_name: String,
}

/// The mathematical counterpart of [`ResourcePacksStackPack`].
pub struct ResourcePacksStackPackView {
    pub id: Seq<char>,
    pub version: Seq<char>,
    pub sub_pack_name: Seq<char>,
}

impl View for ResourcePacksStackPack {
    type V = ResourcePacksStackPackView;

    open spec fn view(&self) -> ResourcePacksStackPackView {
        ResourcePacksStackPackView {
            id: self.id@,
            version: self.version@,
            sub_pack_name: self.sub_pack_name@,
        }
    }
}

impl ProtoCodec for ResourcePacksStackPack {
    open spec fn encodable(v: ResourcePacksStackPackView) -> bool {
        &&& String::encodable(v.id)
        &&& String::encodable(v.version)
        &&& String::encodable(v.sub_pack_name)
    }

    open spec fn wire(v: ResourcePacksStackPackView) -> Seq<u8> {
        String::wire(v.id) + String::wire(v.version) + String::wire(v.sub_pack_name)
    }

    open spec fn parse(s: Seq<u8>) -> Result<(ResourcePacksStackPackView, nat), ProtoCodecError> {
        match text_parse(s) {
            Err(e) => Err(e),
            Ok((id, k0)) => match text_parse(s.skip(k0 as int)) {
                Err(e) => Err(e),
                Ok((version, k1)) => match text_parse(s.skip((k0 + k1) as int)) {
                    Err(e) => Err(e),
                    Ok((sub_pack_name, k2)) => Ok(
                        (ResourcePacksStackPackView { id, version, sub_pack_name }, k0 + k1 + k2),
                    ),
                },
            },
        }
    }

    fn proto_serialize(&self, stream: &mut Vec<u8>) -> (r: Result<(), ProtoCodecError>)
        ensures
            r is Err ==> r == Err::<(), ProtoCodecError>(ProtoCodecError::Overflow),
    {
        let limit: usize = u32::MAX as usize;
        if self.id.as_str().as_bytes().len() > limit || self.version.as_str().as_bytes().len()
            > limit || self.sub_pack_name.as_str().as_bytes().len() > limit {
            return Err(ProtoCodecError::Overflow);
        }
        let _ = self.id.proto_serialize(stream);
        let _ = self.version.proto_serialize(stream);
        let _ = self.sub_pack_name.proto_serialize(stream);
        assert(stream@ =~= old(stream)@ + Self::wire(self@));
        Ok(())
    }

    fn proto_deserialize(stream: &mut ByteReader) -> (r: Result<Self, ProtoCodecError>) {
        let mut cursor: ByteReader = *stream;
        let id: String = match String::proto_deserialize(&mut cursor) {
            Ok(id) => id,
            Err(e) => {
                return Err(e);
            },
        };
        let ghost k0 = cursor.offset() - stream.offset();
        proof {
            assert(cursor.remaining() =~= stream.remaining().skip(k0));
        }
        let version: String = match String::proto_deserialize(&mut cursor) {
            Ok(version) => version,
            Err(e) => {
                return Err(e);
            },
        };
        let ghost k1 = cursor.offset() - stream.offset();
        proof {
            assert(cursor.remaining() =~= stream.remaining().skip(k1));
        }
        let sub_pack_name: String = match String::proto_deserialize(&mut cursor) {
            Ok(sub_pack_name) => sub_pack_name,
            Err(e) => {
                return Err(e);
            },
        };
        *stream = cursor;
        Ok(ResourcePacksStackPack { id, version, sub_pack_name })
    }

    proof fn lemma_roundtrip(v: ResourcePacksStackPackView, rest: Seq<u8>) {
        let a = String::wire(v.id);
        let b = String::wire(v.version);
        let c = String::wire(v.sub_pack_name);
        let s = Self::wire(v) + rest;
        assert(text_parse(s) == Ok::<(Seq<char>, nat), ProtoCodecError>((v.id, a.len()))) by {
            String::lemma_roundtrip(v.id, b + c + rest);
            assert(s =~= a + (b + c + rest));
        }
        assert(text_parse(s.skip(a.len() as int)) == Ok::<(Seq<char>, nat), ProtoCodecError>(
            (v.version, b.len()),
        )) by {
            String::lemma_roundtrip(v.version, c + rest);
            assert(s.skip(a.len() as int) =~= b + (c + rest));
        }
        assert(text_parse(s.skip((a.len() + b.len()) as int)) == Ok::<
            (Seq<char>, nat),
            ProtoCodecError,
        >((v.sub_pack_name, c.len()))) by {
            String::lemma_roundtrip(v.sub_pack_name, rest);
            assert(s.skip((a.len() + b.len()) as int) =~= c + rest);
        }
    }
}

} // verus!
