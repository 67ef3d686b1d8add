use byteorder::{BigEndian, ByteOrder};
use model_header::config::{Config, HeaderError};
use model_header::schema::{Field, FIELD_COUNT, FIELD_WIDTH, HEADER_LEN};

const KNOWN: [i32; 7] = [288, 768, 6, 6, 6, 32000, 256];

fn le_header(values: &[i32]) -> Vec<u8> {
    let mut out = Vec::new();
    for v in values {
        out.extend_from_slice(&v.to_le_bytes());
    }
    out
}

fn known_config() -> Config {
    Config {
        dim: 288,
        hidden_dim: 768,
        n_layers: 6,
        n_heads: 6,
        n_kv_heads: 6,
        vocab_size: 32000,
        seq_len: 256,
    }
}

#[test]
fn known_header_decodes_field_by_field() {
    let c = Config::decode(&le_header(&KNOWN)).unwrap();
    assert_eq!(c.dim, 288);
    assert_eq!(c.hidden_dim, 768);
    assert_eq!(c.n_layers, 6);
    assert_eq!(c.n_heads, 6);
    assert_eq!(c.n_kv_heads, 6);
    assert_eq!(c.vocab_size, 32000);
    assert_eq!(c.seq_len, 256);
    assert_eq!(c, known_config());
}

#[test]
fn swapped_fields_are_detected() {
    let original = Config::decode(&le_header(&KNOWN)).unwrap();
    for i in 0..7 {
        for j in (i + 1)..7 {
            if KNOWN[i] == KNOWN[j] {
                continue;
            }
            let mut swapped = KNOWN;
            swapped.swap(i, j);
            let c = Config::decode(&le_header(&swapped)).unwrap();
            assert_ne!(c, original);
        }
    }
}

#[test]
fn decode_then_encode_gives_bytes_back() {
    for values in [KNOWN, [0; 7], [i32::MAX, 1, 0, 0x01020304, 255, 256, 65536]] {
        let bytes = le_header(&values);
        let c = Config::decode(&bytes).unwrap();
        assert_eq!(c.encode(), Some(bytes));
    }
}

#[test]
fn encode_then_decode_gives_config_back() {
    let c = known_config();
    let bytes = c.encode().unwrap();
    assert_eq!(bytes.len(), HEADER_LEN);
    assert_eq!(Config::decode(&bytes), Ok(c));
}

#[test]
fn encode_writes_little_endian_in_field_order() {
    let bytes = known_config().encode().unwrap();
    assert_eq!(&bytes[0..4], &[0x20, 0x01, 0x00, 0x00]);
    assert_eq!(&bytes[4..8], &[0x00, 0x03, 0x00, 0x00]);
    assert_eq!(&bytes[20..24], &[0x00, 0x7d, 0x00, 0x00]);
    assert_eq!(&bytes[24..28], &[0x00, 0x01, 0x00, 0x00]);
}

#[test]
fn encode_refuses_a_field_beyond_i32() {
    let mut c = known_config();
    c.vocab_size = i32::MAX as usize + 1;
    assert_eq!(c.encode(), None);
    c.vocab_size = i32::MAX as usize;
    assert!(c.encode().is_some());
}

#[test]
fn short_headers_are_truncated() {
    let full = le_header(&KNOWN);
    for len in 0..HEADER_LEN {
        assert_eq!(Config::decode(&full[..len]), Err(HeaderError::Truncated));
    }
}

#[test]
fn short_header_with_negative_field_is_truncated() {
    let bytes = le_header(&[-1, 2, 3, 4, 5, 6, 7]);
    assert_eq!(Config::decode(&bytes[..27]), Err(HeaderError::Truncated));
}

#[test]
fn each_negative_field_is_invalid() {
    for i in 0..7 {
        for bad in [-1, i32::MIN, -288] {
            let mut values = KNOWN;
            values[i] = bad;
            assert_eq!(
                Config::decode(&le_header(&values)),
                Err(HeaderError::InvalidField)
            );
        }
    }
}

#[test]
fn bytes_after_the_header_are_ignored() {
    let mut bytes = le_header(&KNOWN);
    bytes.extend_from_slice(&[0xff; 9]);
    assert_eq!(Config::decode(&bytes), Ok(known_config()));
}

#[test]
fn big_endian_header_is_not_mistaken() {
    let mut bytes = vec![0u8; HEADER_LEN];
    for (i, v) in KNOWN.iter().enumerate() {
        BigEndian::write_i32(&mut bytes[i * 4..i * 4 + 4], *v);
    }
    match Config::decode(&bytes) {
        Ok(c) => assert_ne!(c, known_config()),
        Err(e) => assert_eq!(e, HeaderError::InvalidField),
    }
    // 288 is 0x00000120: read little-endian its bytes give 0x20010000.
    assert_eq!(Config::decode(&bytes).unwrap().dim, 0x2001_0000);
}

#[test]
fn big_endian_header_with_high_low_byte_is_invalid() {
    let mut bytes = vec![0u8; HEADER_LEN];
    for (i, v) in [0x80, 1, 1, 1, 1, 1, 1].iter().enumerate() {
        BigEndian::write_i32(&mut bytes[i * 4..i * 4 + 4], *v);
    }
    assert_eq!(Config::decode(&bytes), Err(HeaderError::InvalidField));
}

#[test]
fn field_table_matches_layout() {
    let order = [
        Field::Dim,
        Field::HiddenDim,
        Field::NLayers,
        Field::NHeads,
        Field::NKvHeads,
        Field::VocabSize,
        Field::SeqLen,
    ];
    assert_eq!(FIELD_COUNT * FIELD_WIDTH, HEADER_LEN);
    for (i, f) in order.iter().enumerate() {
        assert_eq!(Field::at(i), Some(*f));
        assert_eq!(f.index(), i);
        assert_eq!(f.offset(), 4 * i);
    }
    assert_eq!(Field::at(7), None);
}

#[test]
fn get_reads_each_field() {
    let c = known_config();
    assert_eq!(c.get(Field::Dim), 288);
    assert_eq!(c.get(Field::HiddenDim), 768);
    assert_eq!(c.get(Field::NKvHeads), 6);
    assert_eq!(c.get(Field::VocabSize), 32000);
    assert_eq!(c.get(Field::SeqLen), 256);
}
