use vstd::prelude::*;
use vstd::bytes::{
    spec_u64_from_le_bytes, spec_u64_to_le_bytes, u64_from_le_bytes, u64_to_le_bytes,
};
use vstd::slice::{slice_subrange, slice_to_vec};

verus! {

/// The byte that ends the name in a frame header.
pub const NEWLINE: u8 = 10;

/// Number of bytes that carry the file size at the start of a header.
pub const SIZE_LEN: usize = 8;

/// No byte of `s` is the terminator.
pub open spec fn no_newline(s: Seq<u8>) -> bool {
    forall|i: int| 0 <= i < s.len() ==> s[i] != NEWLINE
}

/// Position of the first terminator in `s`, if any.
pub open spec fn first_newline(s: Seq<u8>) -> Option<int>
    decreases s.len(),
{
    if s.len() == 0 {
        None
    } else if s[0] == NEWLINE {
        Some(0)
    } else {
        match first_newline(s.drop_first()) {
            Some(i) => Some(i + 1),
            None => None,
        }
    }
}

/// The header that announces a file of `size` bytes named `name`: the size
/// as eight little-endian bytes, the name, and the terminator.
pub open spec fn header_bytes(size: u64, name: Seq<u8>) -> Seq<u8> {
    spec_u64_to_le_bytes(size) + name + seq![NEWLINE]
}

/// What a receiver reads from the start of a stream `s`: the announced size,
/// the name, and the bytes after the terminator, which belong to the payload.
/// `None` while the header is not complete.
pub open spec fn parse_frame(s: Seq<u8>) -> Option<(u64, Seq<u8>, Seq<u8>)> {
    if s.len() < SIZE_LEN {
        None
    } else {
        let body = s.subrange(SIZE_LEN as int, s.len() as int);
        match first_newline(body) {
            Some(i) => Some(
                (
                    spec_u64_from_le_bytes(s.subrange(0, SIZE_LEN as int)),
                    body.subrange(0, i),
                    body.subrange(i + 1, body.len() as int),
                ),
            ),
            None => None,
        }
    }
}

pub proof fn lemma_first_newline_none(s: Seq<u8>)
    requires
        no_newline(s),
    ensures
        first_newline(s) == None::<int>,
    decreases s.len(),
{
    if s.len() > 0 {
        lemma_first_newline_none(s.drop_first());
    }
}

pub proof fn lemma_first_newline_after(a: Seq<u8>, c: Seq<u8>)
    requires
        no_newline(a),
    ensures
        first_newline(a + seq![NEWLINE] + c) == Some(a.len() as int),
    decreases a.len(),
{
    let s = a + seq![NEWLINE] + c;
    if a.len() > 0 {
        lemma_first_newline_after(a.drop_first(), c);
        assert(s.drop_first() =~= a.drop_first() + seq![NEWLINE] + c);
    }
}

/// A stream that starts with a complete header is read back as that header's
/// size and name, followed by exactly the bytes that came after it.
pub proof fn lemma_parse_header(size: u64, name: Seq<u8>, rest: Seq<u8>)
    requires
        no_newline(name),
    ensures
        parse_frame(header_bytes(size, name) + rest) == Some((size, name, rest)),
{
    vstd::bytes::lemma_auto_spec_u64_to_from_le_bytes();
    let le = spec_u64_to_le_bytes(size);
    let s = header_bytes(size, name) + rest;
    let body = s.subrange(SIZE_LEN as int, s.len() as int);
    assert(le.len() == 8);
    assert(s.subrange(0, 8) =~= le);
    assert(body =~= name + seq![NEWLINE] + rest);
    lemma_first_newline_after(name, rest);
    assert(body.subrange(0, name.len() as int) =~= name);
    assert(body.subrange(name.len() as int + 1, body.len() as int) =~= rest);
}

/// A stream cut short inside its header is not yet a complete header.
pub proof fn lemma_prefix_incomplete(size: u64, name: Seq<u8>, rest: Seq<u8>, cut: int)
    requires
        no_newline(name),
        0 <= cut < header_bytes(size, name).len(),
    ensures
        parse_frame((header_bytes(size, name) + rest).subrange(0, cut)) == None::<
            (u64, Seq<u8>, Seq<u8>),
        >,
{
    vstd::bytes::lemma_auto_spec_u64_to_from_le_bytes();
    let s = (header_bytes(size, name) + rest).subrange(0, cut);
    if cut >= SIZE_LEN {
        let body = s.subrange(SIZE_LEN as int, s.len() as int);
        assert(body =~= name.subrange(0, cut - SIZE_LEN));
        lemma_first_newline_none(body);
    }
}

/// Encoding a header and decoding it gives back the size and the name, for
/// every size and every name free of the terminator.
pub proof fn lemma_header_round_trip(size: u64, name: Seq<u8>)
    requires
        no_newline(name),
    ensures
        parse_frame(header_bytes(size, name)) == Some((size, name, Seq::<u8>::empty())),
{
    lemma_parse_header(size, name, Seq::<u8>::empty());
    assert(header_bytes(size, name) + Seq::<u8>::empty() =~= header_bytes(size, name));
}

/// When the header reaches a receiver in two reads, split anywhere before
/// its terminator, the first read leaves the handshake pending and the
/// second completes it with the full name; every byte after the terminator
/// in the second read is handed on as payload.
pub proof fn lemma_split_handshake(
    size: u64,
    name: Seq<u8>,
    payload: Seq<u8>,
    cut: int,
    end: int,
)
    requires
        no_newline(name),
        0 <= cut < header_bytes(size, name).len() <= end <= header_bytes(size, name).len()
            + payload.len(),
    ensures
        ({
            let wire = header_bytes(size, name) + payload;
            let first = wire.subrange(0, cut);
            let second = wire.subrange(cut, end);
            &&& parse_frame(first) == None::<(u64, Seq<u8>, Seq<u8>)>
            &&& parse_frame(first + second) == Some(
                (size, name, payload.subrange(0, end - header_bytes(size, name).len())),
            )
        }),
{
    let h = header_bytes(size, name);
    let wire = h + payload;
    let taken = payload.subrange(0, end - h.len());
    lemma_prefix_incomplete(size, name, payload, cut);
    assert(wire.subrange(0, cut) + wire.subrange(cut, end) =~= h + taken);
    lemma_parse_header(size, name, taken);
}

/// A file sent as a header and its bytes is rebuilt exactly by a receiver:
/// whichever read completes the handshake, the bytes it hands on, followed by
/// the rest of the stream, are the file, and the size read is its length.
pub proof fn lemma_round_trip(name: Seq<u8>, file: Seq<u8>, end: int)
    requires
        no_newline(name),
        file.len() <= u64::MAX,
        header_bytes(file.len() as u64, name).len() <= end <= header_bytes(
            file.len() as u64,
            name,
        ).len() + file.len(),
    ensures
        ({
            let wire = header_bytes(file.len() as u64, name) + file;
            match parse_frame(wire.subrange(0, end)) {
                Some((size, got_name, first)) => size == file.len() && got_name == name && first
                    + wire.subrange(end, wire.len() as int) == file,
                None => false,
            }
        }),
{
    let h = header_bytes(file.len() as u64, name);
    let wire = h + file;
    let first = file.subrange(0, end - h.len());
    assert(wire.subrange(0, end) =~= h + first);
    lemma_parse_header(file.len() as u64, name, first);
    assert(first + wire.subrange(end, wire.len() as int) =~= file);
}

/// Why a handshake could not be completed.
#[derive(Clone, Copy, Debug, PartialEq, Eq, Structural)]
pub enum HandshakeError {
    /// The stream ended before the eight size bytes arrived.
    TruncatedSize,
    /// The stream ended before the name's terminator arrived.
    MissingTerminator,
    /// A name to be sent holds the terminator byte.
    NameHasTerminator,
}

/// Whether `name` holds the terminator byte.
pub fn contains_newline(name: &[u8]) -> (r: bool)
    ensures
        r == !no_newline(name@),
{
    let mut i: usize = 0;
    while i < name.len()
        invariant
            i <= name.len(),
            no_newline(name@.subrange(0, i as int)),
        decreases name.len() - i,
    {
        if name[i] == NEWLINE {
            return true;
        }
        assert(name@.subrange(0, i + 1) =~= name@.subrange(0, i as int).push(name@[i as int]));
        i = i + 1;
    }
    assert(name@.subrange(0, i as int) =~= name@);
    false
}

/// The header that announces a file of `file_size` bytes named `name`.
/// A name that holds the terminator could not be read back and is refused.
pub fn encode_header(file_size: u64, name: &[u8]) -> (r: Result<Vec<u8>, HandshakeError>)
    ensures
        match r {
            Ok(h) => no_newline(name@) && h@ == header_bytes(file_size, name@),
            Err(e) => !no_newline(name@) && e == HandshakeError::NameHasTerminator,
        },
{
    if contains_newline(name) {
        return Err(HandshakeError::NameHasTerminator);
    }
    let mut h = u64_to_le_bytes(file_size);
    h.extend_from_slice(name);
    h.push(NEWLINE);
    Ok(h)
}

/// A completed handshake: the announced size, the name bytes, and the bytes
/// that followed the terminator in the read that completed it.
pub struct Frame {
    pub file_size: u64,
    pub name: Vec<u8>,
    pub payload: Vec<u8>,
}

/// What one read did to the handshake.
pub enum Handshake {
    /// The header is not complete yet; keep reading.
    Pending,
    Done(Frame),
    Failed(HandshakeError),
}

/// Reads a frame header from a stream handed over in reads of any size.
pub struct HeaderDecoder {
    size_buf: Vec<u8>,
    name_buf: Vec<u8>,
}

impl HeaderDecoder {
    /// The bytes taken in so far.
    pub closed spec fn received(&self) -> Seq<u8> {
        self.size_buf@ + self.name_buf@
    }

    pub closed spec fn wf(&self) -> bool {
        &&& self.size_buf@.len() <= SIZE_LEN
        &&& self.size_buf@.len() < SIZE_LEN ==> self.name_buf@.len() == 0
        &&& no_newline(self.name_buf@)
    }

    proof fn lemma_incomplete(&self)
        requires
            self.wf(),
        ensures
            parse_frame(self.received()) == None::<(u64, Seq<u8>, Seq<u8>)>,
    {
        let s = self.received();
        if s.len() >= SIZE_LEN {
            assert(s.subrange(SIZE_LEN as int, s.len() as int) =~= self.name_buf@);
            lemma_first_newline_none(self.name_buf@);
        }
    }

    pub fn new() -> (r: HeaderDecoder)
        ensures
            r.wf(),
            r.received() == Seq::<u8>::empty(),
    {
        let r = HeaderDecoder { size_buf: Vec::new(), name_buf: Vec::new() };
        assert(r.received() =~= Seq::<u8>::empty());
        r
    }

    /// Takes in the bytes of one read. An empty read is the end of the
    /// stream, which before the terminator leaves the handshake truncated.
    pub fn feed(&mut self, chunk: &[u8]) -> (r: Handshake)
        requires
            old(self).wf(),
        ensures
            final(self).wf(),
            chunk@.len() == 0 ==> r == Handshake::Failed(
                if old(self).received().len() < SIZE_LEN {
                    HandshakeError::TruncatedSize
                } else {
                    HandshakeError::MissingTerminator
                },
            ),
            chunk@.len() > 0 ==> match parse_frame(old(self).received() + chunk@) {
                Some((size, name, payload)) => r matches Handshake::Done(f) && f.file_size == size
                    && f.name@ == name && f.payload@ == payload,
                None => r == Handshake::Pending && final(self).received() == old(self).received()
                    + chunk@,
            },
    {
        proof {
            self.lemma_incomplete();
        }
        if chunk.len() == 0 {
            return Handshake::Failed(
                if self.size_buf.len() < SIZE_LEN {
                    HandshakeError::TruncatedSize
                } else {
                    HandshakeError::MissingTerminator
                },
            );
        }
        let ghost start = self.received();
        let mut k: usize = 0;
        while k < chunk.len()
            invariant
                self.wf(),
                k <= chunk@.len(),
                start == old(self).received(),
                self.received() == start + chunk@.subrange(0, k as int),
            decreases chunk@.len() - k,
        {
            let b = chunk[k];
            let ghost before = self.received();
            if self.size_buf.len() < SIZE_LEN {
                self.size_buf.push(b);
            } else if b == NEWLINE {
                let file_size = u64_from_le_bytes(self.size_buf.as_slice());
                let name = slice_to_vec(self.name_buf.as_slice());
                let payload = slice_to_vec(slice_subrange(chunk, k + 1, chunk.len()));
                proof {
                    let all = start + chunk@;
                    let rest = chunk@.subrange(k + 1, chunk@.len() as int);
                    assert(chunk@ =~= chunk@.subrange(0, k as int) + seq![NEWLINE] + rest);
                    assert(all =~= self.received() + seq![NEWLINE] + rest);
                    assert(all =~= self.size_buf@ + (self.name_buf@ + seq![NEWLINE] + rest));
                    let body = all.subrange(SIZE_LEN as int, all.len() as int);
                    assert(body =~= self.name_buf@ + seq![NEWLINE] + rest);
                    assert(all.subrange(0, SIZE_LEN as int) =~= self.size_buf@);
                    lemma_first_newline_after(self.name_buf@, rest);
                    assert(body.subrange(0, self.name_buf@.len() as int) =~= self.name_buf@);
                    assert(body.subrange(self.name_buf@.len() as int + 1, body.len() as int) =~= rest);
                }
                return Handshake::Done(Frame { file_size, name, payload });
            } else {
                self.name_buf.push(b);
            }
            proof {
                assert(chunk@.subrange(0, k + 1) =~= chunk@.subrange(0, k as int).push(b));
                assert(self.received() =~= before.push(b));
            }
            k = k + 1;
        }
        proof {
            assert(chunk@.subrange(0, k as int) =~= chunk@);
            self.lemma_incomplete();
        }
        Handshake::Pending
    }
}

} // verus!
