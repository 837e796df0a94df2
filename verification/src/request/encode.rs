//! The binary request payload: `[name length][name][field count: u16 LE]`
//! followed by the fields, each `[id: u16 LE][type][length: u32 LE][data]`.
use crate::protocol::fields::{field_at, field_end, read_n_fields, WireField};
use crate::wire::{
    lemma_u16_le_roundtrip, lemma_u32_le_roundtrip, push_byte, push_bytes, push_str, push_u16_le,
    push_u32_le, read_u16, read_u32, u16_le, u32_le,
};
use vstd::prelude::*;
use vstd::string::StringSliceAdditionalSpecFns;

verus! {

/// Field type of UTF-8 text.
pub const KIND_STRING: u8 = 0x01;

/// Field type of a single byte.
pub const KIND_U8: u8 = 0x02;

/// Field type of a little-endian number (4 or 8 bytes).
pub const KIND_NUMBER: u8 = 0x03;

/// The encoding of one field; the length is written modulo 2^32.
pub open spec fn field_bytes(f: WireField) -> Seq<u8> {
    u16_le(f.id) + seq![f.kind] + u32_le(f.data.len() as int) + f.data
}

/// The encodings of the fields, one after the other.
pub open spec fn fields_bytes(fs: Seq<WireField>) -> Seq<u8>
    decreases fs.len(),
{
    if fs.len() == 0 {
        Seq::empty()
    } else {
        fields_bytes(fs.drop_last()) + field_bytes(fs.last())
    }
}

/// The request payload of command `cmd` with fields `fs`.
pub open spec fn request_bytes(cmd: Seq<u8>, fs: Seq<WireField>) -> Seq<u8> {
    seq![cmd.len() as u8] + cmd + u16_le(fs.len() as int) + fields_bytes(fs)
}

/// A field of type `kind` with the given data.
pub open spec fn out_field(id: int, kind: u8, data: Seq<u8>) -> WireField {
    WireField { id, kind, data }
}

/// Writing a length as `u32` keeps its low four bytes.
proof fn lemma_u32_le_truncate(n: usize)
    ensures
        u32_le((n as u32) as int) == u32_le(n as int),
{
    assert((n as u32) % 256 == n % 256) by (bit_vector);
    assert((n as u32) / 256 % 256 == n / 256 % 256) by (bit_vector);
    assert((n as u32) / 65536 % 256 == n / 65536 % 256) by (bit_vector);
    assert((n as u32) / 16777216 % 256 == n / 16777216 % 256) by (bit_vector);
}

/// A request payload under construction.
pub struct RequestBuilder {
    buf: Vec<u8>,
    count: u16,
    cmd: Ghost<Seq<u8>>,
    fields: Ghost<Seq<WireField>>,
}

impl RequestBuilder {
    /// The command name, as bytes.
    pub closed spec fn command(&self) -> Seq<u8> {
        self.cmd@
    }

    /// The fields added so far.
    pub closed spec fn fields(&self) -> Seq<WireField> {
        self.fields@
    }

    /// The buffer holds the header with a zero count, then the fields.
    pub closed spec fn wf(&self) -> bool {
        &&& self.cmd@.len() < 256
        &&& self.count as int == self.fields@.len()
        &&& self.buf@ == seq![self.cmd@.len() as u8] + self.cmd@ + seq![0u8, 0u8] + fields_bytes(
            self.fields@,
        )
    }

    /// Starts the payload of command `cmd`.
    pub fn new(cmd: &str) -> (b: Self)
        requires
            cmd.spec_bytes().len() < 256,
        ensures
            b.wf(),
            b.command() == cmd.spec_bytes(),
            b.fields() == Seq::<WireField>::empty(),
    {
        let mut buf: Vec<u8> = Vec::new();
        let name = cmd.as_bytes();
        push_byte(&mut buf, name.len() as u8);
        push_str(&mut buf, cmd);
        push_byte(&mut buf, 0);
        push_byte(&mut buf, 0);
        let b = RequestBuilder {
            buf,
            count: 0,
            cmd: Ghost(cmd.spec_bytes()),
            fields: Ghost(Seq::empty()),
        };
        assert(b.buf@ =~= seq![cmd.spec_bytes().len() as u8] + cmd.spec_bytes() + seq![0u8, 0u8]
            + fields_bytes(Seq::<WireField>::empty()));
        b
    }

    /// Appends a field.
    pub fn add(&mut self, id: u16, kind: u8, data: &[u8])
        requires
            old(self).wf(),
            old(self).fields().len() < 65535,
        ensures
            final(self).wf(),
            final(self).command() == old(self).command(),
            final(self).fields() == old(self).fields().push(out_field(id as int, kind, data@)),
    {
        let ghost before = self.buf@;
        let ghost f = out_field(id as int, kind, data@);
        push_u16_le(&mut self.buf, id);
        push_byte(&mut self.buf, kind);
        push_u32_le(&mut self.buf, #[verifier::truncate] (data.len() as u32));
        push_bytes(&mut self.buf, data);
        proof {
            lemma_u32_le_truncate(data.len());
            let fs = self.fields@.push(f);
            assert(fs.drop_last() =~= self.fields@);
            assert(fs.last() == f);
            assert(fields_bytes(fs) == fields_bytes(self.fields@) + field_bytes(f));
            assert(self.buf@ =~= before + field_bytes(f));
            assert(self.buf@ =~= seq![self.cmd@.len() as u8] + self.cmd@ + seq![0u8, 0u8] + fields_bytes(fs));
            self.fields@ = fs;
        }
        self.count = self.count + 1;
    }

    /// Appends a text field.
    pub fn add_str(&mut self, id: u16, text: &str)
        requires
            old(self).wf(),
            old(self).fields().len() < 65535,
        ensures
            final(self).wf(),
            final(self).command() == old(self).command(),
            final(self).fields() == old(self).fields().push(
                out_field(id as int, KIND_STRING, text.spec_bytes()),
            ),
    {
        self.add(id, KIND_STRING, text.as_bytes());
    }

    /// Appends a one-byte field.
    pub fn add_u8(&mut self, id: u16, value: u8)
        requires
            old(self).wf(),
            old(self).fields().len() < 65535,
        ensures
            final(self).wf(),
            final(self).command() == old(self).command(),
            final(self).fields() == old(self).fields().push(out_field(id as int, KIND_U8, seq![value])),
    {
        let one: [u8; 1] = [value];
        assert(one@ =~= seq![value]);
        self.add(id, KIND_U8, &one);
    }

    /// Appends a 4-byte number field.
    pub fn add_u32(&mut self, id: u16, value: u32)
        requires
            old(self).wf(),
            old(self).fields().len() < 65535,
        ensures
            final(self).wf(),
            final(self).command() == old(self).command(),
            final(self).fields() == old(self).fields().push(
                out_field(id as int, KIND_NUMBER, u32_le(value as int)),
            ),
    {
        let mut bytes: Vec<u8> = Vec::new();
        push_u32_le(&mut bytes, value);
        self.add(id, KIND_NUMBER, bytes.as_slice());
    }

    /// Appends an 8-byte number field.
    pub fn add_u64(&mut self, id: u16, value: u64)
        requires
            old(self).wf(),
            old(self).fields().len() < 65535,
        ensures
            final(self).wf(),
            final(self).command() == old(self).command(),
            final(self).fields() == old(self).fields().push(
                out_field(id as int, KIND_NUMBER, crate::wire::u64_le(value as int)),
            ),
    {
        let mut bytes: Vec<u8> = Vec::new();
        crate::wire::push_u64_le(&mut bytes, value);
        self.add(id, KIND_NUMBER, bytes.as_slice());
    }

    /// The finished payload, with the field count filled in.
    pub fn finish(self) -> (r: Vec<u8>)
        requires
            self.wf(),
        ensures
            r@ == request_bytes(self.command(), self.fields()),
    {
        let mut buf = self.buf;
        let name_len = buf[0] as usize;
        let ghost cmd = self.cmd@;
        assert(buf@[0] == cmd.len() as u8);
        let count_pos = 1 + name_len;
        buf[count_pos] = (self.count % 256) as u8;
        buf[count_pos + 1] = (self.count / 256) as u8;
        assert(buf@ =~= request_bytes(cmd, self.fields@));
        buf
    }
}

} // verus!

verus! {

/// The encodings of the fields, first field first.
proof fn lemma_fields_bytes_front(fs: Seq<WireField>)
    requires
        fs.len() > 0,
    ensures
        fields_bytes(fs) == field_bytes(fs[0]) + fields_bytes(fs.drop_first()),
    decreases fs.len(),
{
    if fs.len() == 1 {
        assert(fs.drop_last() =~= Seq::<WireField>::empty());
        assert(fs.drop_first() =~= Seq::<WireField>::empty());
        assert(fields_bytes(fs.drop_last()) =~= Seq::<u8>::empty());
        assert(fields_bytes(fs.drop_first()) =~= Seq::<u8>::empty());
        assert(fields_bytes(fs) =~= field_bytes(fs[0]));
    } else {
        lemma_fields_bytes_front(fs.drop_last());
        assert(fs.drop_last().drop_first() =~= fs.drop_first().drop_last());
        assert(fs.drop_first().last() == fs.last());
        assert(fs.drop_last()[0] == fs[0]);
        assert(fields_bytes(fs) =~= field_bytes(fs[0]) + fields_bytes(fs.drop_first()));
    }
}

/// A field can be encoded exactly: its id fits 16 bits, its length 32.
pub open spec fn encodable(f: WireField) -> bool {
    0 <= f.id < 65536 && f.data.len() < 4294967296
}

/// Reading `fs.len()` fields after any prefix gives the fields back.
proof fn lemma_read_back(p: Seq<u8>, fs: Seq<WireField>)
    requires
        forall|i: int| 0 <= i < fs.len() ==> encodable(#[trigger] fs[i]),
    ensures
        read_n_fields(p + fields_bytes(fs), p.len() as int, fs.len()) == Some(
            (fs, (p + fields_bytes(fs)).len() as int),
        ),
    decreases fs.len(),
{
    let d = p + fields_bytes(fs);
    if fs.len() == 0 {
        assert(fs =~= Seq::<WireField>::empty());
    } else {
        let f = fs[0];
        assert(encodable(f));
        lemma_fields_bytes_front(fs);
        let fb = field_bytes(f);
        let p2 = p + fb;
        assert(d =~= p2 + fields_bytes(fs.drop_first()));
        let off = p.len() as int;
        lemma_u16_le_roundtrip(f.id);
        lemma_u32_le_roundtrip(f.data.len() as int);
        assert(fb.subrange(0, 2) =~= u16_le(f.id));
        assert(fb.subrange(3, 7) =~= u32_le(f.data.len() as int));
        assert(d[off] == fb[0] && d[off + 1] == fb[1]);
        assert(read_u16(d, off) == read_u16(u16_le(f.id), 0));
        assert(d[off + 3] == fb[3] && d[off + 4] == fb[4] && d[off + 5] == fb[5] && d[off + 6] == fb[6]);
        assert(read_u32(d, off + 3) == read_u32(u32_le(f.data.len() as int), 0));
        assert(field_end(d, off) == p2.len());
        assert(d.subrange(off + 7, off + 7 + f.data.len()) =~= f.data);
        assert(field_at(d, off) == f);
        assert(forall|i: int| 0 <= i < fs.drop_first().len() ==> fs.drop_first()[i] == fs[i + 1]);
        lemma_read_back(p2, fs.drop_first());
        assert(seq![f] + fs.drop_first() =~= fs);
    }
}

/// Reading back a request payload: the name length, the name, the field
/// count, then exactly the fields that were written, ending at the end of
/// the payload.
pub proof fn law_request_read_back(cmd: Seq<u8>, fs: Seq<WireField>)
    requires
        cmd.len() < 256,
        fs.len() < 65536,
        forall|i: int| 0 <= i < fs.len() ==> encodable(#[trigger] fs[i]),
    ensures
        request_bytes(cmd, fs)[0] == cmd.len(),
        request_bytes(cmd, fs).subrange(1, 1 + cmd.len() as int) == cmd,
        read_u16(request_bytes(cmd, fs), 1 + cmd.len() as int) == fs.len(),
        read_n_fields(request_bytes(cmd, fs), 3 + cmd.len() as int, fs.len()) == Some(
            (fs, request_bytes(cmd, fs).len() as int),
        ),
{
    let head = seq![cmd.len() as u8] + cmd + u16_le(fs.len() as int);
    let d = request_bytes(cmd, fs);
    assert(d =~= head + fields_bytes(fs));
    lemma_u16_le_roundtrip(fs.len() as int);
    assert(d.subrange(1, 1 + cmd.len() as int) =~= cmd);
    assert(d[1 + cmd.len() as int] == u16_le(fs.len() as int)[0]);
    assert(d[2 + cmd.len() as int] == u16_le(fs.len() as int)[1]);
    lemma_read_back(head, fs);
}

} // verus!
