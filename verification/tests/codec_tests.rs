use stable_gov::codec::{decode_proposal, encode_proposal, CodecError};
use stable_gov::exam::{decode_exam, encode_exam, Exam};
use stable_gov::proposal::{CallerId, Proposal};

fn sample_proposal() -> Proposal {
    Proposal {
        description: String::from("AB"),
        approve: 1,
        reject: 2,
        pass: 3,
        is_active: true,
        voted: vec![CallerId { id: 9 }],
        owner: CallerId { id: 7 },
    }
}

#[test]
fn proposal_encoding_exact_bytes() {
    let bytes = encode_proposal(&sample_proposal());
    let mut expected: Vec<u8> = Vec::new();
    expected.extend_from_slice(&[1, 0, 0, 0]); // approve
    expected.extend_from_slice(&[2, 0, 0, 0]); // reject
    expected.extend_from_slice(&[3, 0, 0, 0]); // pass
    expected.push(1); // is_active
    expected.extend_from_slice(&[7, 0, 0, 0, 0, 0, 0, 0]); // owner
    expected.extend_from_slice(&[2, 0, 0, 0, 0, 0, 0, 0]); // description length
    expected.extend_from_slice(b"AB");
    expected.extend_from_slice(&[1, 0, 0, 0, 0, 0, 0, 0]); // voter count
    expected.extend_from_slice(&[9, 0, 0, 0, 0, 0, 0, 0]); // voter
    assert_eq!(bytes, expected);
}

#[test]
fn proposal_round_trip() {
    let p = sample_proposal();
    let bytes = encode_proposal(&p);
    let q = decode_proposal(&bytes).expect("a fresh encoding must decode");
    assert_eq!(q.description, "AB");
    assert_eq!(q.approve, 1);
    assert_eq!(q.reject, 2);
    assert_eq!(q.pass, 3);
    assert!(q.is_active);
    assert_eq!(q.voted, vec![CallerId { id: 9 }]);
    assert_eq!(q.owner, CallerId { id: 7 });
}

#[test]
fn proposal_round_trip_unicode_description() {
    let p = Proposal {
        description: String::from("zon\u{e9} \u{1f5f3}"),
        approve: 0,
        reject: 0,
        pass: 0,
        is_active: false,
        voted: vec![CallerId { id: 1 }, CallerId { id: u64::MAX }],
        owner: CallerId { id: 0 },
    };
    let bytes = encode_proposal(&p);
    let q = decode_proposal(&bytes).expect("a fresh encoding must decode");
    assert_eq!(q.description, "zon\u{e9} \u{1f5f3}");
    assert!(!q.is_active);
    assert_eq!(q.voted, vec![CallerId { id: 1 }, CallerId { id: u64::MAX }]);
}

#[test]
fn proposal_decode_rejects_short_buffer() {
    assert!(matches!(decode_proposal(&vec![0u8; 10]), Err(CodecError::CorruptRecord)));
}

#[test]
fn proposal_decode_rejects_bad_flag() {
    let mut bytes = encode_proposal(&sample_proposal());
    bytes[12] = 5; // neither 0 nor 1
    assert!(matches!(decode_proposal(&bytes), Err(CodecError::CorruptRecord)));
}

#[test]
fn proposal_decode_rejects_trailing_bytes() {
    let mut bytes = encode_proposal(&sample_proposal());
    bytes.push(0);
    assert!(matches!(decode_proposal(&bytes), Err(CodecError::CorruptRecord)));
}

#[test]
fn proposal_decode_rejects_invalid_utf8() {
    let p = Proposal {
        description: String::from("ab"),
        approve: 0,
        reject: 0,
        pass: 0,
        is_active: true,
        voted: vec![],
        owner: CallerId { id: 1 },
    };
    let mut bytes = encode_proposal(&p);
    bytes[29] = 0xff; // corrupt the description bytes
    bytes[30] = 0xfe;
    assert!(matches!(decode_proposal(&bytes), Err(CodecError::CorruptRecord)));
}

#[test]
fn exam_encoding_exact_bytes() {
    let e = Exam { out_of: 100, course: String::from("CS"), curve: 5 };
    let bytes = encode_exam(&e);
    assert_eq!(bytes, vec![100, 5, 2, 0, 0, 0, 0, 0, 0, 0, 67, 83]);
}

#[test]
fn exam_round_trip() {
    let e = Exam { out_of: 90, course: String::from("Hist\u{f6}ry"), curve: 12 };
    let bytes = encode_exam(&e);
    let f = decode_exam(&bytes).expect("a fresh encoding must decode");
    assert_eq!(f.out_of, 90);
    assert_eq!(f.course, "Hist\u{f6}ry");
    assert_eq!(f.curve, 12);
}

#[test]
fn exam_decode_rejects_wrong_length() {
    let e = Exam { out_of: 1, course: String::from("x"), curve: 2 };
    let mut bytes = encode_exam(&e);
    bytes.push(7);
    assert!(matches!(decode_exam(&bytes), Err(CodecError::CorruptRecord)));
    assert!(matches!(decode_exam(&vec![1u8, 2u8]), Err(CodecError::CorruptRecord)));
}
