//! Laws that relate decoding and encoding.

use crate::byte_order::{be_bytes, le_bytes, lemma_le_bytes_of_value, lemma_le_value_of_bytes};
use crate::config::{HeaderError, decode_spec, encode_spec, encoded_prefix, header_field, Config};
use crate::schema::{FIELD_COUNT, FIELD_WIDTH, HEADER_LEN};
use vstd::prelude::*;

verus! {

/// The big-endian bytes of the first `n` fields of `c`, in order.
pub open spec fn encoded_prefix_be(c: Config, n: nat) -> Seq<u8>
    decreases n,
{
    if n == 0 {
        Seq::empty()
    } else {
        encoded_prefix_be(c, (n - 1) as nat) + be_bytes(c.field_value(n - 1) as int)
    }
}

/// The bytes `s` with the words of fields `i` and `j` exchanged.
pub open spec fn swap_fields(s: Seq<u8>, i: int, j: int) -> Seq<u8> {
    Seq::new(
        s.len(),
        |p: int|
            if i * FIELD_WIDTH <= p < i * FIELD_WIDTH + FIELD_WIDTH {
                s[p - i * FIELD_WIDTH + j * FIELD_WIDTH]
            } else if j * FIELD_WIDTH <= p < j * FIELD_WIDTH + FIELD_WIDTH {
                s[p - j * FIELD_WIDTH + i * FIELD_WIDTH]
            } else {
                s[p]
            },
    )
}

/// A field that decodes successfully holds its value unchanged.
proof fn lemma_decoded_field(s: Seq<u8>, c: Config, i: int)
    requires
        decode_spec(s) == Ok::<Config, HeaderError>(c),
        0 <= i < FIELD_COUNT,
    ensures
        c.field_value(i) as int == header_field(s, i),
        s.subrange(i * FIELD_WIDTH, i * FIELD_WIDTH + FIELD_WIDTH) == le_bytes(c.field_value(i) as int),
{
    let w = s.subrange(i * FIELD_WIDTH, i * FIELD_WIDTH + FIELD_WIDTH);
    lemma_le_bytes_of_value(w);
    assert(header_field(s, i) >= 0);
}

/// The bytes of the first `n` fields of a decoded header are the first
/// `n` words of the bytes it was decoded from.
proof fn lemma_prefix_of_decoded(s: Seq<u8>, c: Config, n: nat)
    requires
        decode_spec(s) == Ok::<Config, HeaderError>(c),
        n <= FIELD_COUNT,
    ensures
        encoded_prefix(c, n) == s.subrange(0, n * FIELD_WIDTH),
    decreases n,
{
    if n > 0 {
        let m = (n - 1) as nat;
        lemma_prefix_of_decoded(s, c, m);
        lemma_decoded_field(s, c, m as int);
        assert(encoded_prefix(c, n) =~= s.subrange(0, n * FIELD_WIDTH));
    } else {
        assert(encoded_prefix(c, n) =~= s.subrange(0, 0));
    }
}

/// Word `k` of an encoding of the first `n` fields is the coding of field `k`.
proof fn lemma_words_of_prefix(c: Config, n: nat, k: int)
    requires
        c.fits(),
        n <= FIELD_COUNT,
        0 <= k < n,
    ensures
        encoded_prefix(c, n).len() == n * FIELD_WIDTH,
        encoded_prefix_be(c, n).len() == n * FIELD_WIDTH,
        encoded_prefix(c, n).subrange(k * FIELD_WIDTH, k * FIELD_WIDTH + FIELD_WIDTH) == le_bytes(
            c.field_value(k) as int,
        ),
        encoded_prefix_be(c, n).subrange(k * FIELD_WIDTH, k * FIELD_WIDTH + FIELD_WIDTH)
            == be_bytes(c.field_value(k) as int),
    decreases n,
{
    let m = (n - 1) as nat;
    let v = c.field_value(m as int) as int;
    assert(c.field_value(m as int) <= i32::MAX);
    lemma_le_value_of_bytes(v);
    if m == 0 {
        assert(encoded_prefix(c, m) =~= Seq::<u8>::empty());
        assert(encoded_prefix_be(c, m) =~= Seq::<u8>::empty());
    } else {
        lemma_words_of_prefix(c, m, 0);
    }
    if k < m {
        lemma_words_of_prefix(c, m, k);
        assert(encoded_prefix(c, n).subrange(k * FIELD_WIDTH, k * FIELD_WIDTH + FIELD_WIDTH)
            =~= encoded_prefix(c, m).subrange(k * FIELD_WIDTH, k * FIELD_WIDTH + FIELD_WIDTH));
        assert(encoded_prefix_be(c, n).subrange(k * FIELD_WIDTH, k * FIELD_WIDTH + FIELD_WIDTH)
            =~= encoded_prefix_be(c, m).subrange(k * FIELD_WIDTH, k * FIELD_WIDTH + FIELD_WIDTH));
    } else {
        assert(encoded_prefix(c, n).subrange(k * FIELD_WIDTH, k * FIELD_WIDTH + FIELD_WIDTH)
            =~= le_bytes(v));
        assert(encoded_prefix_be(c, n).subrange(k * FIELD_WIDTH, k * FIELD_WIDTH + FIELD_WIDTH)
            =~= be_bytes(v));
    }
}

/// Decoding a header and encoding the result gives back the header's bytes.
pub proof fn lemma_decode_then_encode(s: Seq<u8>)
    requires
        s.len() == HEADER_LEN,
        decode_spec(s) is Ok,
    ensures
        encode_spec(decode_spec(s)->Ok_0) == Some(s),
{
    let c = decode_spec(s)->Ok_0;
    assert forall|i: int| 0 <= i < FIELD_COUNT implies #[trigger] c.field_value(i) <= i32::MAX by {
        lemma_decoded_field(s, c, i);
        lemma_le_bytes_of_value(s.subrange(i * FIELD_WIDTH, i * FIELD_WIDTH + FIELD_WIDTH));
    }
    lemma_prefix_of_decoded(s, c, FIELD_COUNT as nat);
    assert(s.subrange(0, HEADER_LEN as int) =~= s);
}

/// Encoding a configuration whose fields fit and decoding the bytes gives
/// the configuration back.
pub proof fn lemma_encode_then_decode(c: Config)
    requires
        c.fits(),
    ensures
        encode_spec(c) matches Some(b) && b.len() == HEADER_LEN && decode_spec(b) == Ok::<
            Config,
            HeaderError,
        >(c),
{
    let b = encoded_prefix(c, FIELD_COUNT as nat);
    assert forall|i: int| 0 <= i < FIELD_COUNT implies header_field(b, i) == c.field_value(i) as int by {
        lemma_words_of_prefix(c, FIELD_COUNT as nat, i);
        assert(c.field_value(i) <= i32::MAX);
        lemma_le_value_of_bytes(c.field_value(i) as int);
    }
    lemma_words_of_prefix(c, FIELD_COUNT as nat, 0);
    assert(!(exists|i: int| 0 <= i < FIELD_COUNT && #[trigger] header_field(b, i) < 0));
    assert(header_field(b, 0) == c.field_value(0) as int);
    assert(header_field(b, 1) == c.field_value(1) as int);
    assert(header_field(b, 2) == c.field_value(2) as int);
    assert(header_field(b, 3) == c.field_value(3) as int);
    assert(header_field(b, 4) == c.field_value(4) as int);
    assert(header_field(b, 5) == c.field_value(5) as int);
    assert(header_field(b, 6) == c.field_value(6) as int);
}

/// Exchanging two fields of a valid header that hold different values
/// changes what the header decodes to: the field order is not tolerated.
pub proof fn lemma_swapped_fields_detected(s: Seq<u8>, i: int, j: int)
    requires
        decode_spec(s) is Ok,
        0 <= i < FIELD_COUNT,
        0 <= j < FIELD_COUNT,
        header_field(s, i) != header_field(s, j),
    ensures
        decode_spec(swap_fields(s, i, j)) != decode_spec(s),
{
    let t = swap_fields(s, i, j);
    let c = decode_spec(s)->Ok_0;
    assert(t.subrange(i * FIELD_WIDTH, i * FIELD_WIDTH + FIELD_WIDTH) =~= s.subrange(
        j * FIELD_WIDTH,
        j * FIELD_WIDTH + FIELD_WIDTH,
    ));
    lemma_decoded_field(s, c, i);
    lemma_decoded_field(s, c, j);
    if decode_spec(t) == decode_spec(s) {
        lemma_decoded_field(t, c, i);
    }
}

/// Reading a big-endian header as a little-endian one never yields the
/// configuration that was written, unless every field reads the same in both
/// byte orders.
pub proof fn lemma_big_endian_not_mistaken(c: Config, i: int)
    requires
        c.fits(),
        0 <= i < FIELD_COUNT,
        be_bytes(c.field_value(i) as int) != le_bytes(c.field_value(i) as int),
    ensures
        decode_spec(encoded_prefix_be(c, FIELD_COUNT as nat)) != Ok::<Config, HeaderError>(c),
{
    let b = encoded_prefix_be(c, FIELD_COUNT as nat);
    lemma_words_of_prefix(c, FIELD_COUNT as nat, i);
    if decode_spec(b) == Ok::<Config, HeaderError>(c) {
        lemma_decoded_field(b, c, i);
    }
}

} // verus!
