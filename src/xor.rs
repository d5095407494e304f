use vstd::prelude::*;

verus! {

/// Number of bytes in the repeating obfuscation key.
pub const KEY_LEN: usize = 3;

/// The key byte used at stream position `i`: the key is the text `"key"`,
/// repeated without end.
pub open spec fn key_byte(i: int) -> u8 {
    if i % 3 == 0 {
        0x6bu8
    } else if i % 3 == 1 {
        0x65u8
    } else {
        0x79u8
    }
}

/// `b` XOR-ed with the repeating key, where `b[0]` sits at stream position `start`.
pub open spec fn xor_from(b: Seq<u8>, start: int) -> Seq<u8> {
    Seq::new(b.len(), |i: int| b[i] ^ key_byte(start + i))
}

/// The key byte at position `pos`, for any position.
fn key_at(pos: usize) -> (r: u8)
    ensures
        r == key_byte(pos as int),
{
    let m = pos % KEY_LEN;
    if m == 0 {
        0x6b
    } else if m == 1 {
        0x65
    } else {
        0x79
    }
}

/// XORs a whole buffer with the repeating key, starting at key position 0.
pub fn xor_key(bytes: &[u8]) -> (r: Vec<u8>)
    ensures
        r@ == xor_from(bytes@, 0),
{
    let mut out: Vec<u8> = Vec::with_capacity(bytes.len());
    let mut i: usize = 0;
    while i < bytes.len()
        invariant
            i <= bytes@.len(),
            out@ == xor_from(bytes@.take(i as int), 0),
        decreases bytes@.len() - i,
    {
        out.push(bytes[i] ^ key_at(i));
        i = i + 1;
        assert(out@ =~= xor_from(bytes@.take(i as int), 0));
    }
    assert(bytes@.take(i as int) =~= bytes@);
    out
}

/// A reader adapter that XORs every byte read from `inner` with the repeating key.
///
/// The key position carries over from one `read` to the next, so the bytes that come
/// out do not depend on how the inner reader splits its data into chunks.
pub struct KeyXORReader<R> {
    inner: R,
    pos: usize,
}

impl<R> KeyXORReader<R> {
    /// The stream position, modulo the key length, of the next byte to be read.
    pub closed spec fn offset(&self) -> int {
        self.pos as int % 3
    }

    /// The wrapped reader.
    pub closed spec fn inner_reader(&self) -> R {
        self.inner
    }

    /// Wraps `inner`; its first byte is XOR-ed with the first key byte.
    pub fn new(inner: R) -> (r: KeyXORReader<R>)
        ensures
            r.offset() == 0,
            r.inner_reader() == inner,
    {
        KeyXORReader { inner, pos: 0 }
    }

    /// XORs the first `n` bytes of `buf`, which were just read from the stream,
    /// and advances the key position past them.
    pub fn xor_chunk(&mut self, buf: &mut [u8], n: usize)
        requires
            n <= old(buf)@.len(),
        ensures
            final(buf)@ == xor_from(old(buf)@.take(n as int), old(self).offset()) + old(buf)@.skip(
                n as int,
            ),
            final(self).offset() == (old(self).offset() + n) % 3,
            final(self).inner_reader() == old(self).inner_reader(),
    {
        let start = self.pos % KEY_LEN;
        let ghost before = buf@;
        let mut i: usize = 0;
        while i < n
            invariant
                i <= n,
                n <= before.len(),
                start == old(self).offset(),
                buf@.len() == before.len(),
                forall|j: int| 0 <= j < i ==> buf@[j] == before[j] ^ key_byte(start + j),
                forall|j: int| i <= j < before.len() ==> buf@[j] == before[j],
            decreases n - i,
        {
            let k = key_at(start + i % KEY_LEN);
            proof {
                assert(key_byte(start + i % 3) == key_byte(start + i)) by {
                    lemma_key_periodic(start as int, i as int);
                }
            }
            buf[i] = buf[i] ^ k;
            i = i + 1;
        }
        assert(buf@ =~= xor_from(before.take(n as int), start as int) + before.skip(n as int));
        self.pos = (start + n % KEY_LEN) % KEY_LEN;
    }
}

/// The error of a failed read, carried through unchanged.
#[verifier::external_type_specification]
#[verifier::external_body]
pub struct ExIoError(std::io::Error);

/// Relies on `std::io::Read::read`: a successful read reports at most `buf.len()` bytes,
/// and the slice keeps its length.
#[verifier::external_body]
fn read_inner<R: std::io::Read>(inner: &mut R, buf: &mut [u8]) -> (r: std::io::Result<usize>)
    ensures
        final(buf)@.len() == old(buf)@.len(),
        r matches Ok(n) ==> n <= old(buf)@.len(),
{
    inner.read(buf)
}

impl<R> KeyXORReader<R> {
    /// Completes a read into `buf`, given what the inner reader returned for it.
    ///
    /// On `Ok(n)` the first `n` bytes are XOR-ed from the current key position and the
    /// position advances by `n`; an error passes through with the buffer and the
    /// position untouched. The result is `got` itself.
    pub fn finish_read(&mut self, buf: &mut [u8], got: std::io::Result<usize>) -> (r:
        std::io::Result<usize>)
        requires
            got matches Ok(n) ==> n <= old(buf)@.len(),
        ensures
            r == got,
            got matches Ok(n) ==> final(buf)@ == xor_from(
                old(buf)@.take(n as int),
                old(self).offset(),
            ) + old(buf)@.skip(n as int) && final(self).offset() == (old(self).offset() + n)
                % 3,
            got is Err ==> final(buf)@ == old(buf)@ && final(self).offset() == old(
                self,
            ).offset(),
            final(self).inner_reader() == old(self).inner_reader(),
    {
        match got {
            Ok(n) => {
                self.xor_chunk(buf, n);
                Ok(n)
            },
            Err(e) => Err(e),
        }
    }
}

impl<R: std::io::Read> std::io::Read for KeyXORReader<R> {
    /// Reads from the inner reader into `buf`, once, and XORs the bytes it delivered.
    fn read(&mut self, buf: &mut [u8]) -> (r: std::io::Result<usize>)
        ensures
            r matches Ok(n) ==> n <= old(buf)@.len() && final(self).offset() == (old(
                self,
            ).offset() + n) % 3 && exists|d: Seq<u8>|
                d.len() == old(buf)@.len() && final(buf)@ == #[trigger] xor_from(
                    d.take(n as int),
                    old(self).offset(),
                ) + d.skip(n as int),
            r is Err ==> final(self).offset() == old(self).offset(),
    {
        let got = read_inner(&mut self.inner, buf);
        let ghost delivered = buf@;
        let r = self.finish_read(buf, got);
        proof {
            if let Ok(n) = r {
                assert(buf@ == xor_from(delivered.take(n as int), old(self).offset())
                    + delivered.skip(n as int));
            }
        }
        r
    }
}

/// XOR with the key is its own inverse: applying it twice from the same position
/// gives back the original bytes.
pub proof fn lemma_xor_involution(b: Seq<u8>, start: int)
    ensures
        xor_from(xor_from(b, start), start) == b,
{
    assert forall|i: int| 0 <= i < b.len() implies xor_from(xor_from(b, start), start)[i]
        == b[i] by {
        let x = b[i];
        let k = key_byte(start + i);
        assert(x ^ k ^ k == x) by (bit_vector);
    }
    assert(xor_from(xor_from(b, start), start) =~= b);
}

/// Chunked XOR agrees with one pass: transforming `a` from position `start`, then `b`
/// from the position a reader holds afterwards (`start + a.len()` modulo the key
/// length), gives the same bytes as transforming `a + b` at once.
pub proof fn lemma_xor_chunks(a: Seq<u8>, b: Seq<u8>, start: int)
    requires
        0 <= start,
    ensures
        xor_from(a, start) + xor_from(b, (start + a.len()) % 3) == xor_from(a + b, start),
{
    let s2 = (start + a.len()) % 3;
    assert forall|j: int| 0 <= j < b.len() implies #[trigger] key_byte(s2 + j) == key_byte(
        start + a.len() + j,
    ) by {
        assert((s2 + j) % 3 == (start + a.len() + j) % 3);
    }
    assert(xor_from(a, start) + xor_from(b, s2) =~= xor_from(a + b, start));
}

/// The bytes a stream of chunks turns into when each chunk is XOR-ed from the key
/// position that the chunks before it leave, starting at `start`.
pub open spec fn xor_chunks(chunks: Seq<Seq<u8>>, start: int) -> Seq<u8>
    decreases chunks.len(),
{
    if chunks.len() == 0 {
        Seq::empty()
    } else {
        xor_from(chunks[0], start) + xor_chunks(chunks.drop_first(), (start + chunks[0].len()) % 3)
    }
}

/// Streaming agrees with one pass, however the input is split: XOR-ing the chunks one
/// after another, with the key position carried across, gives the same bytes as XOR-ing
/// their concatenation at once.
pub proof fn lemma_xor_stream(chunks: Seq<Seq<u8>>, start: int)
    requires
        0 <= start,
    ensures
        xor_chunks(chunks, start) == xor_from(chunks.flatten(), start),
    decreases chunks.len(),
{
    if chunks.len() > 0 {
        let rest = chunks.drop_first();
        lemma_xor_stream(rest, (start + chunks[0].len()) % 3);
        lemma_xor_chunks(chunks[0], rest.flatten(), start);
    }
}

proof fn lemma_key_periodic(s: int, i: int)
    requires
        0 <= s,
        0 <= i,
    ensures
        key_byte(s + i % 3) == key_byte(s + i),
{
    assert((s + i % 3) % 3 == (s + i) % 3);
}

} // verus!
