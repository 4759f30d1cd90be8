//! Words of a buffer as the bytes that a device takes and gives back.
//!
//! The bytes of a word stand in the order of the machine, the same for all
//! words of a buffer.
use crate::ieee::Real;
use crate::pack::{pad, padded};
use vstd::prelude::*;

verus! {

/// Value of the bytes, the lowest first.
pub open spec fn low_first(bytes: Seq<u8>) -> int
    decreases bytes.len(),
{
    if bytes.len() == 0 {
        0
    } else {
        bytes[0] + 256 * low_first(bytes.drop_first())
    }
}

/// Value of the bytes, the highest first.
pub open spec fn high_first(bytes: Seq<u8>) -> int {
    low_first(bytes.reverse())
}

/// The bytes of word `i` of a buffer with `width` bytes per word.
pub open spec fn word_bytes(bytes: Seq<u8>, width: int, i: int) -> Seq<u8> {
    bytes.subrange(i * width, i * width + width)
}

/// The bytes spell the words, `width` bytes each, the lowest byte first or the
/// highest first.
pub open spec fn spell(bytes: Seq<u8>, width: int, words: Seq<int>, low: bool) -> bool {
    &&& bytes.len() == words.len() * width
    &&& forall|i: int|
        0 <= i < words.len() ==> #[trigger] words[i] == if low {
            low_first(word_bytes(bytes, width, i))
        } else {
            high_first(word_bytes(bytes, width, i))
        }
}

pub open spec fn ints32(words: Seq<u32>) -> Seq<int> {
    words.map_values(|w: u32| w as int)
}

pub open spec fn ints64(words: Seq<u64>) -> Seq<int> {
    words.map_values(|w: u64| w as int)
}

pub open spec fn bits_of(reals: Seq<Real>) -> Seq<u64> {
    reals.map_values(|x: Real| x.bits)
}

/// The bytes spell the words in one of the two byte orders.
pub open spec fn holds32(bytes: Seq<u8>, words: Seq<u32>) -> bool {
    spell(bytes, 4, ints32(words), true) || spell(bytes, 4, ints32(words), false)
}

/// The bytes spell the words in one of the two byte orders.
pub open spec fn holds64(bytes: Seq<u8>, words: Seq<u64>) -> bool {
    spell(bytes, 8, ints64(words), true) || spell(bytes, 8, ints64(words), false)
}

/// Bytes of a buffer of words, by `bytemuck::cast_slice`: the memory of the
/// words, read as bytes. That is every word's bytes in the order of the
/// machine. Which of the two orders that is depends on the machine and is left
/// open.
#[verifier::external_body]
fn cast_words32(words: &[u32]) -> (r: Vec<u8>)
    ensures
        holds32(r@, words@),
{
    bytemuck::cast_slice::<u32, u8>(words).to_vec()
}

/// Bytes of a buffer of long words, by `bytemuck::cast_slice`, as
/// [`cast_words32`] for words of eight bytes.
#[verifier::external_body]
fn cast_words64(words: &[u64]) -> (r: Vec<u8>)
    ensures
        holds64(r@, words@),
{
    bytemuck::cast_slice::<u64, u8>(words).to_vec()
}

/// Words of a byte buffer, by `bytemuck::pod_collect_to_vec`: the bytes are
/// copied to the memory of the words, in the order of the machine, wherever in
/// memory they stand. Which of the two orders that is depends on the machine
/// and is left open.
#[verifier::external_body]
fn collect_words32(bytes: &[u8]) -> (r: Vec<u32>)
    requires
        bytes.len() % 4 == 0,
    ensures
        holds32(bytes@, r@),
{
    bytemuck::pod_collect_to_vec::<u8, u32>(bytes)
}

/// Long words of a byte buffer, by `bytemuck::pod_collect_to_vec`, as
/// [`collect_words32`] for words of eight bytes.
#[verifier::external_body]
fn collect_words64(bytes: &[u8]) -> (r: Vec<u64>)
    requires
        bytes.len() % 8 == 0,
    ensures
        holds64(bytes@, r@),
{
    bytemuck::pod_collect_to_vec::<u8, u64>(bytes)
}

/// Bytes to upload for a table: those of one zero where it is empty, since a
/// device buffer cannot be.
pub fn upload_u32(table: &[u32]) -> (r: Vec<u8>)
    ensures
        holds32(r@, padded(table@, 1, 0u32)),
        r@.len() > 0,
{
    cast_words32(pad(table, 0u32).as_slice())
}

/// Bytes to upload for a table of long words.
pub fn upload_u64(table: &[u64]) -> (r: Vec<u8>)
    ensures
        holds64(r@, padded(table@, 1, 0u64)),
        r@.len() > 0,
{
    cast_words64(pad(table, 0u64).as_slice())
}

fn bits(table: &[Real]) -> (r: Vec<u64>)
    ensures
        r@ == bits_of(table@),
{
    let mut r: Vec<u64> = Vec::new();
    let mut i: usize = 0;
    while i < table.len()
        invariant
            i <= table.len(),
            r@ == bits_of(table@.subrange(0, i as int)),
        decreases table.len() - i,
    {
        r.push(table[i].bits);
        i = i + 1;
        assert(r@ =~= bits_of(table@.subrange(0, i as int)));
    }
    assert(table@.subrange(0, i as int) =~= table@);
    r
}

/// Bytes to upload for a table of reals.
pub fn upload_real(table: &[Real]) -> (r: Vec<u8>)
    ensures
        holds64(r@, bits_of(padded(table@, 1, (Real { bits: 0 })))),
        r@.len() > 0,
{
    let words = bits(pad(table, Real::zero()).as_slice());
    cast_words64(words.as_slice())
}

/// Words read back from a device, if the bytes are whole words.
pub fn read_u32(bytes: &[u8]) -> (r: Option<Vec<u32>>)
    ensures
        r is Some <==> bytes.len() % 4 == 0,
        r matches Some(words) ==> holds32(bytes@, words@),
{
    if bytes.len() % 4 == 0 {
        Some(collect_words32(bytes))
    } else {
        None
    }
}

/// Long words read back from a device, if the bytes are whole words.
pub fn read_u64(bytes: &[u8]) -> (r: Option<Vec<u64>>)
    ensures
        r is Some <==> bytes.len() % 8 == 0,
        r matches Some(words) ==> holds64(bytes@, words@),
{
    if bytes.len() % 8 == 0 {
        Some(collect_words64(bytes))
    } else {
        None
    }
}

/// Reals read back from a device, if the bytes are whole words.
pub fn read_real(bytes: &[u8]) -> (r: Option<Vec<Real>>)
    ensures
        r is Some <==> bytes.len() % 8 == 0,
        r matches Some(reals) ==> holds64(bytes@, bits_of(reals@)),
{
    match read_u64(bytes) {
        None => None,
        Some(words) => {
            let mut reals: Vec<Real> = Vec::new();
            let mut i: usize = 0;
            while i < words.len()
                invariant
                    i <= words@.len(),
                    reals@.len() == i,
                    forall|j: int| 0 <= j < i ==> (#[trigger] reals@[j]).bits == words@[j],
                decreases words@.len() - i,
            {
                reals.push(Real::new(words[i]));
                i = i + 1;
            }
            assert(bits_of(reals@) =~= words@);
            Some(reals)
        },
    }
}

/// A counter read back from a device, if the bytes hold one.
pub fn read_counter(bytes: &[u8]) -> (r: Option<u64>)
    ensures
        r is Some <==> bytes.len() % 8 == 0 && bytes.len() > 0,
        r matches Some(count) ==> count == low_first(word_bytes(bytes@, 8, 0)) || count
            == high_first(word_bytes(bytes@, 8, 0)),
{
    match read_u64(bytes) {
        None => None,
        Some(words) => {
            if words.len() == 0 {
                None
            } else {
                assert(ints64(words@)[0] == words@[0]);
                Some(words[0])
            }
        },
    }
}

/// Bytes written and read in the same order give the words back.
pub proof fn words_come_back(bytes: Seq<u8>, width: int, a: Seq<int>, b: Seq<int>, low: bool)
    requires
        width > 0,
        spell(bytes, width, a, low),
        spell(bytes, width, b, low),
    ensures
        a == b,
{
    assert(a.len() == b.len()) by (nonlinear_arith)
        requires
            width > 0,
            a.len() * width == b.len() * width,
    ;
    assert forall|i: int| 0 <= i < a.len() implies a[i] == b[i] by {
        assert(a[i] == if low {
            low_first(word_bytes(bytes, width, i))
        } else {
            high_first(word_bytes(bytes, width, i))
        });
        assert(b[i] == if low {
            low_first(word_bytes(bytes, width, i))
        } else {
            high_first(word_bytes(bytes, width, i))
        });
    }
    assert(a =~= b);
}

/// Four bytes spell a word, each byte worth 256 times the one before it, from the one
/// end or the other.
pub proof fn four_bytes_spell_a_word(b: Seq<u8>)
    requires
        b.len() == 4,
    ensures
        low_first(b) == b[0] + 0x100 * b[1] + 0x1_0000 * b[2] + 0x100_0000 * b[3],
        high_first(b) == b[3] + 0x100 * b[2] + 0x1_0000 * b[1] + 0x100_0000 * b[0],
{
    lemma_four(b);
    let r = b.reverse();
    assert(r[0] == b[3] && r[1] == b[2] && r[2] == b[1] && r[3] == b[0]);
    lemma_four(r);
}

proof fn lemma_four(b: Seq<u8>)
    requires
        b.len() == 4,
    ensures
        low_first(b) == b[0] + 0x100 * b[1] + 0x1_0000 * b[2] + 0x100_0000 * b[3],
{
    let b1 = b.drop_first();
    let b2 = b1.drop_first();
    let b3 = b2.drop_first();
    let b4 = b3.drop_first();
    assert(b1[0] == b[1] && b2[0] == b[2] && b3[0] == b[3]);
    assert(low_first(b4) == 0);
    assert(low_first(b3) == b3[0] + 256 * low_first(b4));
    assert(low_first(b2) == b2[0] + 256 * low_first(b3));
    assert(low_first(b1) == b1[0] + 256 * low_first(b2));
}

/// A table is uploaded whole, four bytes for a word or eight, and an empty one as a
/// single zero; bytes that are no whole words are not read.
pub proof fn tables_are_uploaded_whole(
    t32: &[u32],
    t64: &[u64],
    reals: &[Real],
    b32: Vec<u8>,
    b64: Vec<u8>,
    br: Vec<u8>,
)
    requires
        call_ensures(upload_u32, (t32,), b32),
        call_ensures(upload_u64, (t64,), b64),
        call_ensures(upload_real, (reals,), br),
    ensures
        t32@.len() > 0 ==> b32@.len() == 4 * t32@.len(),
        t32@.len() == 0 ==> b32@.len() == 4,
        t64@.len() > 0 ==> b64@.len() == 8 * t64@.len(),
        t64@.len() == 0 ==> b64@.len() == 8,
        reals@.len() > 0 ==> br@.len() == 8 * reals@.len(),
        reals@.len() == 0 ==> br@.len() == 8,
{
}

/// What is read back has a word for every four bytes, or every eight, and is read
/// exactly where the bytes come out even.
pub proof fn whole_words_are_read(
    bytes: &[u8],
    w32: Option<Vec<u32>>,
    w64: Option<Vec<u64>>,
    reals: Option<Vec<Real>>,
    counter: Option<u64>,
)
    requires
        call_ensures(read_u32, (bytes,), w32),
        call_ensures(read_u64, (bytes,), w64),
        call_ensures(read_real, (bytes,), reals),
        call_ensures(read_counter, (bytes,), counter),
    ensures
        w32 is Some <==> bytes@.len() % 4 == 0,
        w64 is Some <==> bytes@.len() % 8 == 0,
        reals is Some <==> bytes@.len() % 8 == 0,
        counter is Some <==> bytes@.len() % 8 == 0 && bytes@.len() >= 8,
        w32 is Some ==> bytes@.len() == 4 * w32->0@.len(),
        w64 is Some ==> bytes@.len() == 8 * w64->0@.len(),
        reals is Some ==> bytes@.len() == 8 * reals->0@.len(),
{
}

} // verus!
