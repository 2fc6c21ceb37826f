use vstd::prelude::*;
use vstd::bytes::{
    lemma_auto_spec_u64_to_from_le_bytes, spec_u64_from_le_bytes, spec_u64_to_le_bytes,
    u64_from_le_bytes, u64_to_le_bytes,
};
use vstd::utf8::{decode_utf8, encode_utf8, encode_utf8_decode_utf8, encode_utf8_valid_utf8, valid_utf8};
use vstd::slice::{slice_subrange, slice_to_vec};
use vstd::string::StrSliceExecFns;
use crate::codec::{string_from_utf8, CodecError};

verus! {

/// Upper bound, in bytes, on the encoding of an exam record.
pub const EXAM_MAX_SIZE: usize = 100;

/// Exam encodings vary in length up to the bound.
pub const EXAM_IS_FIXED_SIZE: bool = false;

/// A scored exam record; independent of proposals.
pub struct Exam {
    pub out_of: u8,
    pub course: String,
    pub curve: u8,
}

/// The mathematical value of an `Exam`.
pub struct ExamView {
    pub out_of: u8,
    pub course: Seq<char>,
    pub curve: u8,
}

impl View for Exam {
    type V = ExamView;

    open spec fn view(&self) -> ExamView {
        ExamView { out_of: self.out_of, course: self.course@, curve: self.curve }
    }
}

/// The byte encoding of an exam: the two scores, then the length-prefixed
/// UTF-8 course name.
pub open spec fn spec_encode_exam(e: ExamView) -> Seq<u8> {
    seq![e.out_of, e.curve] + spec_u64_to_le_bytes(encode_utf8(e.course).len() as u64)
        + encode_utf8(e.course)
}

/// The exam a byte buffer encodes, or `None` when the buffer is not a valid
/// exam encoding.
pub open spec fn spec_decode_exam(b: Seq<u8>) -> Option<ExamView> {
    if b.len() < 10 {
        None
    } else {
        let clen = spec_u64_from_le_bytes(b.subrange(2, 10)) as int;
        if b.len() != 10 + clen {
            None
        } else if !valid_utf8(b.subrange(10, b.len() as int)) {
            None
        } else {
            Some(
                ExamView {
                    out_of: b[0],
                    course: decode_utf8(b.subrange(10, b.len() as int)),
                    curve: b[1],
                },
            )
        }
    }
}

/// The round-trip law for exams: decoding an encoding gives the record back.
pub proof fn lemma_exam_round_trip(e: ExamView)
    requires
        encode_utf8(e.course).len() <= u64::MAX,
    ensures
        spec_decode_exam(spec_encode_exam(e)) == Some(e),
{
    lemma_auto_spec_u64_to_from_le_bytes();
    broadcast use encode_utf8_valid_utf8, encode_utf8_decode_utf8;

    let g = encode_utf8(e.course);
    let b = spec_encode_exam(e);
    assert(b.len() == 10 + g.len());
    assert(b[0] == e.out_of);
    assert(b[1] == e.curve);
    assert(b.subrange(2, 10) =~= spec_u64_to_le_bytes(g.len() as u64));
    assert(b.subrange(10, b.len() as int) =~= g);
    assert(spec_decode_exam(b) == Some(e));
}

/// Encodes an exam. Total: every exam value has an encoding.
pub fn encode_exam(e: &Exam) -> (out: Vec<u8>)
    ensures
        out@ == spec_encode_exam(e@),
{
    let mut out: Vec<u8> = Vec::new();
    out.push(e.out_of);
    out.push(e.curve);
    let mut course_bytes = e.course.as_str().as_bytes_vec();
    let mut part = u64_to_le_bytes(course_bytes.len() as u64);
    out.append(&mut part);
    out.append(&mut course_bytes);
    proof {
        assert(out@ =~= spec_encode_exam(e@));
    }
    out
}

/// Decodes an exam, failing exactly on buffers that encode no exam.
pub fn decode_exam(b: &Vec<u8>) -> (r: Result<Exam, CodecError>)
    ensures
        match r {
            Ok(e) => spec_decode_exam(b@) == Some(e@),
            Err(_) => spec_decode_exam(b@) is None,
        },
{
    let n = b.len();
    if n < 10 {
        return Err(CodecError::CorruptRecord);
    }
    let s = b.as_slice();
    let out_of = b[0];
    let curve = b[1];
    let clen64 = u64_from_le_bytes(slice_subrange(s, 2, 10));
    if clen64 != (n as u64) - 10 {
        return Err(CodecError::CorruptRecord);
    }
    let course_bytes = slice_to_vec(slice_subrange(s, 10, n));
    match string_from_utf8(course_bytes) {
        None => Err(CodecError::CorruptRecord),
        Some(course) => {
            let e = Exam { out_of, course, curve };
            proof {
                assert(b@.subrange(10, n as int) =~= b@.subrange(10, b@.len() as int));
                assert(spec_decode_exam(b@) == Some(e@));
            }
            Ok(e)
        }
    }
}

} // verus!
