//! The decoded header, its errors, and the two directions of the coding.

use crate::byte_order::{le_bytes, le_i32_value, read_i32_le, write_i32_le};
use crate::schema::{Field, FIELD_COUNT, FIELD_WIDTH, HEADER_LEN};
use vstd::prelude::*;
use vstd::slice::slice_subrange;

verus! {

/// The hyperparameters of a transformer model, as the header states them.
#[derive(Clone, Copy, Debug, PartialEq, Eq, Structural)]
pub struct Config {
    /// Width of the embeddings.
    pub dim: usize,
    /// Inner width of the feed-forward network.
    pub hidden_dim: usize,
    /// Number of transformer blocks.
    pub n_layers: usize,
    /// Number of query heads.
    pub n_heads: usize,
    /// Number of key/value heads.
    pub n_kv_heads: usize,
    /// Number of tokens in the vocabulary.
    pub vocab_size: usize,
    /// Longest sequence the model handles.
    pub seq_len: usize,
}

/// Why a header could not be turned into a [`Config`].
#[derive(Clone, Copy, Debug, PartialEq, Eq, Structural)]
pub enum HeaderError {
    /// The source does not exist or cannot be opened for reading.
    NotFound,
    /// The source ends before the header does.
    Truncated,
    /// A field holds a negative value.
    InvalidField,
    /// Reading from the source failed in some other way.
    IoError,
}

/// The value stored in field `i` of the header `s`.
pub open spec fn header_field(s: Seq<u8>, i: int) -> int {
    le_i32_value(s.subrange(i * FIELD_WIDTH, i * FIELD_WIDTH + FIELD_WIDTH))
}

/// Whether some field of the header `s` is negative.
pub open spec fn has_negative_field(s: Seq<u8>) -> bool {
    exists|i: int| 0 <= i < FIELD_COUNT && #[trigger] header_field(s, i) < 0
}

/// What decoding the bytes `s` gives: the header is the first
/// [`HEADER_LEN`] bytes, and whatever follows it is not read.
pub open spec fn decode_spec(s: Seq<u8>) -> Result<Config, HeaderError> {
    if s.len() < HEADER_LEN {
        Err(HeaderError::Truncated)
    } else if has_negative_field(s) {
        Err(HeaderError::InvalidField)
    } else {
        Ok(
            Config {
                dim: header_field(s, 0) as usize,
                hidden_dim: header_field(s, 1) as usize,
                n_layers: header_field(s, 2) as usize,
                n_heads: header_field(s, 3) as usize,
                n_kv_heads: header_field(s, 4) as usize,
                vocab_size: header_field(s, 5) as usize,
                seq_len: header_field(s, 6) as usize,
            },
        )
    }
}

/// The little-endian bytes of the first `n` fields of `c`, in order.
pub open spec fn encoded_prefix(c: Config, n: nat) -> Seq<u8>
    decreases n,
{
    if n == 0 {
        Seq::empty()
    } else {
        encoded_prefix(c, (n - 1) as nat) + le_bytes(c.field_value(n - 1) as int)
    }
}

/// What encoding `c` gives: its header, where every field fits in an `i32`.
pub open spec fn encode_spec(c: Config) -> Option<Seq<u8>> {
    if c.fits() {
        Some(encoded_prefix(c, FIELD_COUNT as nat))
    } else {
        None
    }
}

impl Config {
    /// The value of the field at position `i`.
    pub open spec fn field_value(self, i: int) -> usize {
        if i == 0 {
            self.dim
        } else if i == 1 {
            self.hidden_dim
        } else if i == 2 {
            self.n_layers
        } else if i == 3 {
            self.n_heads
        } else if i == 4 {
            self.n_kv_heads
        } else if i == 5 {
            self.vocab_size
        } else {
            self.seq_len
        }
    }

    /// Whether every field can be stored as a non-negative `i32`.
    pub open spec fn fits(self) -> bool {
        forall|i: int| 0 <= i < FIELD_COUNT ==> #[trigger] self.field_value(i) <= i32::MAX
    }

    /// The value of field `f`.
    pub fn get(&self, f: Field) -> (r: usize)
        ensures
            r == self.field_value(f.spec_index()),
    {
        match f {
            Field::Dim => self.dim,
            Field::HiddenDim => self.hidden_dim,
            Field::NLayers => self.n_layers,
            Field::NHeads => self.n_heads,
            Field::NKvHeads => self.n_kv_heads,
            Field::VocabSize => self.vocab_size,
            Field::SeqLen => self.seq_len,
        }
    }

    /// Decodes the header at the start of `bytes`: seven little-endian `i32`
    /// fields in the order of [`Field`], each of which must be non-negative.
    pub fn decode(bytes: &[u8]) -> (r: Result<Config, HeaderError>)
        ensures
            r == decode_spec(bytes@),
            bytes@.len() < HEADER_LEN ==> r == Err::<Config, HeaderError>(HeaderError::Truncated),
            bytes@.len() >= HEADER_LEN ==> (r == Err::<Config, HeaderError>(
                HeaderError::InvalidField,
            ) <==> has_negative_field(bytes@)),
            r matches Ok(c) ==> c.fits(),
    {
        if bytes.len() < HEADER_LEN {
            return Err(HeaderError::Truncated);
        }
        let mut values: Vec<usize> = Vec::new();
        let mut i: usize = 0;
        while i < FIELD_COUNT
            invariant
                bytes@.len() >= HEADER_LEN,
                i <= FIELD_COUNT,
                values@.len() == i,
                forall|k: int|
                    0 <= k < i ==> values@[k] == header_field(bytes@, k) && #[trigger] header_field(
                        bytes@,
                        k,
                    ) >= 0,
            decreases FIELD_COUNT - i,
        {
            let field = Field::at(i).unwrap();
            let off = field.offset();
            let word = slice_subrange(bytes, off, off + FIELD_WIDTH);
            assert(word@.subrange(0, 4) =~= word@);
            let v = read_i32_le(word);
            assert(v == header_field(bytes@, i as int));
            if v < 0 {
                return Err(HeaderError::InvalidField);
            }
            values.push(v as usize);
            i += 1;
        }
        let c = Config {
            dim: values[0],
            hidden_dim: values[1],
            n_layers: values[2],
            n_heads: values[3],
            n_kv_heads: values[4],
            vocab_size: values[5],
            seq_len: values[6],
        };
        assert(forall|k: int| 0 <= k < FIELD_COUNT ==> c.field_value(k) == values@[k]);
        Ok(c)
    }

    /// Encodes the seven fields as a header: little-endian `i32`s in the
    /// order of [`Field`]. Gives `None` where a field does not fit in an `i32`.
    pub fn encode(&self) -> (r: Option<Vec<u8>>)
        ensures
            r is Some <==> self.fits(),
            r matches Some(v) ==> encode_spec(*self) == Some(v@),
            r matches Some(v) ==> v@.len() == HEADER_LEN,
    {
        let mut out: Vec<u8> = Vec::new();
        let mut i: usize = 0;
        while i < FIELD_COUNT
            invariant
                i <= FIELD_COUNT,
                out@ == encoded_prefix(*self, i as nat),
                out@.len() == i * FIELD_WIDTH,
                forall|k: int| 0 <= k < i ==> #[trigger] self.field_value(k) <= i32::MAX,
            decreases FIELD_COUNT - i,
        {
            let field = Field::at(i).unwrap();
            let v = self.get(field);
            if v > i32::MAX as usize {
                return None;
            }
            let word = write_i32_le(v as i32);
            let ghost before = out@;
            let mut j: usize = 0;
            while j < FIELD_WIDTH
                invariant
                    j <= FIELD_WIDTH,
                    word@ == le_bytes(v as int),
                    out@ == before + word@.subrange(0, j as int),
                decreases FIELD_WIDTH - j,
            {
                out.push(word[j]);
                j += 1;
                assert(out@ =~= before + word@.subrange(0, j as int));
            }
            assert(word@.subrange(0, 4) =~= word@);
            i += 1;
        }
        Some(out)
    }
}

} // verus!
