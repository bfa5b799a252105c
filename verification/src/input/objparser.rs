//! Parsing of mesh face data.
//!
//! A face line of a mesh file has the shape `v/vt/vn v/vt/vn v/vt/vn`,
//! where `v` is a vertex index, `vt` a texture-coordinate index and `vn` a
//! normal index, all 1-based.  [`parse_face`] reads the three index
//! triples of such a line, and [`get_elements`] resolves a triple of
//! 1-based indices in a slice.  The whole grammar, down to the exact error
//! message of every rejection, is stated by the spec functions here.

use vstd::prelude::*;
use vstd::string::StrSliceExecFns;
use vstd::string::StringExecFns;

use crate::decimal::dec_str;
use crate::decimal::usize_to_string;
use crate::input::InputError;

verus! {

/// A decimal digit character.
pub open spec fn is_digit(c: char) -> bool {
    '0' <= c && c <= '9'
}

/// The numeric value of a digit character.
pub open spec fn digit_value(c: char) -> int {
    (c as u32) as int - 48
}

/// The ways a number is rejected, as the standard library reports them.
pub enum NumError {
    Empty,
    InvalidDigit,
    PosOverflow,
}

/// The message text of each numeric rejection.
pub open spec fn num_error_message(e: NumError) -> Seq<char> {
    match e {
        NumError::Empty => "cannot parse integer from empty string"@,
        NumError::InvalidDigit => "invalid digit found in string"@,
        NumError::PosOverflow => "number too large to fit in target type"@,
    }
}

/// Read the digits of `s` from position `i` on into an accumulator,
/// rejecting a non-digit or a value outside of `u32`.
pub open spec fn parse_digits(s: Seq<char>, i: int, acc: int) -> Result<int, NumError>
    decreases s.len() - i,
{
    if i < 0 || i >= s.len() {
        Result::Ok(acc)
    } else if !is_digit(s[i]) {
        Result::Err(NumError::InvalidDigit)
    } else {
        let acc2 = acc * 10 + digit_value(s[i]);
        if acc2 > u32::MAX as int {
            Result::Err(NumError::PosOverflow)
        } else {
            parse_digits(s, i + 1, acc2)
        }
    }
}

/// What parsing a string as a `u32` gives: an optional plus sign, at
/// least one digit, and a value within bounds.  A minus sign is no sign
/// for an unsigned number: it is an invalid digit.
pub open spec fn parse_u32_spec(s: Seq<char>) -> Result<int, NumError> {
    if s.len() == 0 {
        Result::Err(NumError::Empty)
    } else {
        let rest = if s[0] == '+' {
            s.subrange(1, s.len() as int)
        } else {
            s
        };
        if rest.len() == 0 {
            Result::Err(NumError::InvalidDigit)
        } else {
            parse_digits(rest, 0, 0)
        }
    }
}

/// Read a `u32`, with the standard library's acceptance and messages.
pub fn parse_u32(s: &str) -> (r: Result<u32, String>)
    ensures
        match r {
            Result::Ok(v) => parse_u32_spec(s@) == Result::<int, NumError>::Ok(v as int),
            Result::Err(m) => parse_u32_spec(s@) matches Result::Err(e) && m@ == num_error_message(
                e,
            ),
        },
{
    let n = s.unicode_len();
    if n == 0 {
        return Result::Err(String::from_str("cannot parse integer from empty string"));
    }
    let c0 = s.get_char(0);
    let signed = c0 == '+';
    let start: usize = if signed {
        1
    } else {
        0
    };
    let ghost rest = if signed {
        s@.subrange(1, s@.len() as int)
    } else {
        s@
    };
    if n - start == 0 {
        return Result::Err(String::from_str("invalid digit found in string"));
    }
    let mut acc: u32 = 0;
    let mut i: usize = start;
    while i < n
        invariant
            n == s@.len(),
            start <= i <= n,
            start == 0 || start == 1,
            start == 1 ==> signed,
            rest == if signed {
                s@.subrange(1, s@.len() as int)
            } else {
                s@
            },
            rest.len() == n - start,
            forall|j: int| 0 <= j < rest.len() ==> rest[j] == s@[j + start],
            parse_u32_spec(s@) == parse_digits(rest, (i - start) as int, acc as int),
        decreases n - i,
    {
        let c = s.get_char(i);
        proof {
            assert(rest[(i - start) as int] == c);
        }
        let cu = c as u32;
        if !(cu >= 48 && cu <= 57) {
            proof {
                assert(!is_digit(c));
                assert(parse_digits(rest, (i - start) as int, acc as int) == Result::<
                    int,
                    NumError,
                >::Err(NumError::InvalidDigit));
            }
            return Result::Err(String::from_str("invalid digit found in string"));
        }
        let d: u32 = cu - 48;
        let acc2: u64 = acc as u64 * 10 + d as u64;
        if acc2 > u32::MAX as u64 {
            proof {
                assert(parse_digits(rest, (i - start) as int, acc as int) == Result::<
                    int,
                    NumError,
                >::Err(NumError::PosOverflow));
            }
            return Result::Err(String::from_str("number too large to fit in target type"));
        }
        proof {
            assert(parse_digits(rest, (i - start) as int, acc as int) == parse_digits(
                rest,
                (i + 1 - start) as int,
                acc2 as int,
            ));
        }
        acc = acc2 as u32;
        i += 1;
    }
    proof {
        assert(parse_digits(rest, (i - start) as int, acc as int) == Result::<int, NumError>::Ok(
            acc as int,
        ));
    }
    Result::Ok(acc)
}

/// Split a sequence at every slash, from position `i` on, with `start` the
/// beginning of the part being read.
pub open spec fn split_slash_from(s: Seq<char>, start: int, i: int) -> Seq<Seq<char>>
    decreases s.len() - i,
{
    if i < 0 || i >= s.len() {
        seq![s.subrange(start, s.len() as int)]
    } else if s[i] == '/' {
        seq![s.subrange(start, i)] + split_slash_from(s, i + 1, i + 1)
    } else {
        split_slash_from(s, start, i + 1)
    }
}

/// The parts of a sequence between its slashes; always at least one part.
pub open spec fn split_slash(s: Seq<char>) -> Seq<Seq<char>> {
    split_slash_from(s, 0, 0)
}

/// Splitting yields at least one part.
proof fn lemma_split_nonempty(s: Seq<char>, start: int, i: int)
    ensures
        split_slash_from(s, start, i).len() >= 1,
    decreases s.len() - i,
{
    if 0 <= i < s.len() {
        if s[i] == '/' {
            lemma_split_nonempty(s, i + 1, i + 1);
        } else {
            lemma_split_nonempty(s, start, i + 1);
        }
    }
}

/// Split a string slice at every slash.
pub fn split_parts<'a>(s: &'a str) -> (r: Vec<&'a str>)
    ensures
        r.deep_view() == split_slash(s@),
{
    let n = s.unicode_len();
    let mut parts: Vec<&'a str> = Vec::new();
    let mut start: usize = 0;
    let mut i: usize = 0;
    while i < n
        invariant
            n == s@.len(),
            0 <= start <= i <= n,
            parts.deep_view() + split_slash_from(s@, start as int, i as int) =~= split_slash(s@),
        decreases n - i,
    {
        let c = s.get_char(i);
        if c == '/' {
            let part = s.substring_char(start, i);
            let ghost before = parts.deep_view();
            parts.push(part);
            proof {
                assert(parts.deep_view() =~= before.push(part@));
                assert(split_slash_from(s@, start as int, i as int) == seq![
                    s@.subrange(start as int, i as int),
                ] + split_slash_from(s@, i + 1, i + 1));
                assert(parts.deep_view() + split_slash_from(s@, i + 1, i + 1) =~= split_slash(s@));
            }
            start = i + 1;
        } else {
            proof {
                assert(split_slash_from(s@, start as int, i as int) == split_slash_from(
                    s@,
                    start as int,
                    i + 1,
                ));
            }
        }
        i += 1;
    }
    let last = s.substring_char(start, n);
    let ghost before = parts.deep_view();
    parts.push(last);
    proof {
        assert(parts.deep_view() =~= before.push(last@));
        assert(split_slash_from(s@, start as int, n as int) == seq![
            s@.subrange(start as int, s@.len() as int),
        ]);
        assert(parts.deep_view() =~= split_slash(s@));
    }
    parts
}

/// The index triple that one `v/vt/vn` element of a face line stands for.
/// An unreadable texture index counts as zero; everything else is
/// rejected, in the order the errors are discovered.
pub open spec fn elem_triplet(e: Seq<char>) -> Result<(u32, u32, u32), Seq<char>> {
    let parts = split_slash(e);
    if parts.len() > 3 {
        Result::Err("Face data contains more than 3 elements"@)
    } else {
        match parse_u32_spec(parts[0]) {
            Result::Err(m) => Result::Err(num_error_message(m)),
            Result::Ok(v) => if parts.len() < 2 {
                Result::Err("Expected texture coordinate data"@)
            } else {
                let t = match parse_u32_spec(parts[1]) {
                    Result::Ok(tv) => tv,
                    Result::Err(_) => 0,
                };
                if parts.len() < 3 {
                    Result::Err("Expected normal data"@)
                } else {
                    match parse_u32_spec(parts[2]) {
                        Result::Err(m) => Result::Err(num_error_message(m)),
                        Result::Ok(n) => Result::Ok((v as u32, t as u32, n as u32)),
                    }
                }
            },
        }
    }
}

/// What a whole face line of three elements stands for: the vertex
/// indices, the texture indices and the normal indices, each gathered
/// into one triple.
pub open spec fn face_spec(l: Seq<Seq<char>>) -> Result<
    ((u32, u32, u32), (u32, u32, u32), (u32, u32, u32)),
    Seq<char>,
> {
    if l.len() != 3 {
        Result::Err("Expected 3 elements but got "@ + dec_str(l.len() as int))
    } else {
        match elem_triplet(l[0]) {
            Result::Err(m) => Result::Err(m),
            Result::Ok(e0) => match elem_triplet(l[1]) {
                Result::Err(m) => Result::Err(m),
                Result::Ok(e1) => match elem_triplet(l[2]) {
                    Result::Err(m) => Result::Err(m),
                    Result::Ok(e2) => Result::Ok(
                        ((e0.0, e1.0, e2.0), (e0.1, e1.1, e2.1), (e0.2, e1.2, e2.2)),
                    ),
                },
            },
        }
    }
}

/// Read one `v/vt/vn` element.
fn parse_face_elem(e: &str) -> (r: Result<(u32, u32, u32), String>)
    ensures
        match r {
            Result::Ok(tr) => elem_triplet(e@) == Result::<(u32, u32, u32), Seq<char>>::Ok(tr),
            Result::Err(m) => elem_triplet(e@) matches Result::Err(sm) && m@ == sm,
        },
{
    let parts = split_parts(e);
    proof {
        lemma_split_nonempty(e@, 0, 0);
        assert(parts.deep_view().len() == parts@.len());
    }
    if parts.len() > 3 {
        return Result::Err(String::from_str("Face data contains more than 3 elements"));
    }
    proof {
        assert(parts[0]@ == split_slash(e@)[0]);
    }
    let v = match parse_u32(parts[0]) {
        Result::Ok(v) => v,
        Result::Err(m) => {
            return Result::Err(m);
        },
    };
    if parts.len() < 2 {
        return Result::Err(String::from_str("Expected texture coordinate data"));
    }
    proof {
        assert(parts[1]@ == split_slash(e@)[1]);
    }
    let t = match parse_u32(parts[1]) {
        Result::Ok(t) => t,
        Result::Err(_) => 0,
    };
    if parts.len() < 3 {
        return Result::Err(String::from_str("Expected normal data"));
    }
    proof {
        assert(parts[2]@ == split_slash(e@)[2]);
    }
    let n = match parse_u32(parts[2]) {
        Result::Ok(n) => n,
        Result::Err(m) => {
            return Result::Err(m);
        },
    };
    Result::Ok((v, t, n))
}

/// Read a face line already cut into whitespace-separated elements, in the
/// shape `v/vt/vn v/vt/vn v/vt/vn`: the vertex indices, the texture
/// indices and the normal indices, as 1-based triples.
pub fn parse_face(line: Vec<&str>) -> (r: Result<
    ((u32, u32, u32), (u32, u32, u32), (u32, u32, u32)),
    String,
>)
    ensures
        match r {
            Result::Ok(tr) => face_spec(line.deep_view()) == Result::<
                ((u32, u32, u32), (u32, u32, u32), (u32, u32, u32)),
                Seq<char>,
            >::Ok(tr),
            Result::Err(m) => face_spec(line.deep_view()) matches Result::Err(sm) && m@ == sm,
        },
{
    proof {
        assert(line.deep_view().len() == line@.len());
    }
    if line.len() != 3 {
        let mut m = String::from_str("Expected 3 elements but got ");
        let d = usize_to_string(line.len());
        m.append(d.as_str());
        return Result::Err(m);
    }
    proof {
        assert(line[0]@ == line.deep_view()[0]);
        assert(line[1]@ == line.deep_view()[1]);
        assert(line[2]@ == line.deep_view()[2]);
    }
    let e0 = match parse_face_elem(line[0]) {
        Result::Ok(t) => t,
        Result::Err(m) => {
            return Result::Err(m);
        },
    };
    let e1 = match parse_face_elem(line[1]) {
        Result::Ok(t) => t,
        Result::Err(m) => {
            return Result::Err(m);
        },
    };
    let e2 = match parse_face_elem(line[2]) {
        Result::Ok(t) => t,
        Result::Err(m) => {
            return Result::Err(m);
        },
    };
    Result::Ok(((e0.0, e1.0, e2.0), (e0.1, e1.1, e2.1), (e0.2, e1.2, e2.2)))
}

/// A 1-based index lands in a slice of the given length.
pub open spec fn index_ok(i: int, len: int) -> bool {
    1 <= i <= len
}

/// The first of the three indices that misses the slice, if any.
pub open spec fn first_bad_index(i0: int, i1: int, i2: int, len: int) -> Option<int> {
    if !index_ok(i0, len) {
        Option::Some(i0)
    } else if !index_ok(i1, len) {
        Option::Some(i1)
    } else if !index_ok(i2, len) {
        Option::Some(i2)
    } else {
        Option::None
    }
}

/// The message for an index that misses the slice.
pub open spec fn bad_index_message(i: int) -> Seq<char> {
    "Invalid index "@ + dec_str(i) + " for face data"@
}

/// Fetch three elements of a slice by a triple of 1-based indices.
pub fn get_elements<T: Copy>(from: &[T], indices: (u32, u32, u32)) -> (r: Result<[T; 3], String>)
    ensures
        match first_bad_index(
            indices.0 as int,
            indices.1 as int,
            indices.2 as int,
            from@.len() as int,
        ) {
            Option::None => r matches Result::Ok(a) && a@ =~= seq![
                from@[indices.0 - 1],
                from@[indices.1 - 1],
                from@[indices.2 - 1],
            ],
            Option::Some(b) => r matches Result::Err(m) && m@ == bad_index_message(b),
        },
{
    let x = match fetch_element(from, indices.0) {
        Result::Ok(x) => x,
        Result::Err(m) => {
            return Result::Err(m);
        },
    };
    let y = match fetch_element(from, indices.1) {
        Result::Ok(y) => y,
        Result::Err(m) => {
            return Result::Err(m);
        },
    };
    let z = match fetch_element(from, indices.2) {
        Result::Ok(z) => z,
        Result::Err(m) => {
            return Result::Err(m);
        },
    };
    Result::Ok([x, y, z])
}

/// Fetch one element of a slice by a 1-based index.
fn fetch_element<T: Copy>(from: &[T], index: u32) -> (r: Result<T, String>)
    ensures
        match r {
            Result::Ok(x) => index_ok(index as int, from@.len() as int) && x == from@[index - 1],
            Result::Err(m) => !index_ok(index as int, from@.len() as int) && m@ == bad_index_message(
                index as int,
            ),
        },
{
    if index >= 1 && (index as usize) <= from.len() {
        Result::Ok(from[(index as usize) - 1])
    } else {
        let mut m = String::from_str("Invalid index ");
        let d = usize_to_string(index as usize);
        m.append(d.as_str());
        m.append(" for face data");
        Result::Err(m)
    }
}

/// Wrap a message as the error of one mesh-file line (counted from 1).
pub fn err(current_line: usize, msg: &str) -> (r: InputError)
    requires
        current_line < usize::MAX,
    ensures
        r@.title == "Error on line "@ + dec_str(current_line + 1),
        r@.msg == msg@,
{
    let mut t = String::from_str("Error on line ");
    let d = usize_to_string(current_line + 1);
    t.append(d.as_str());
    InputError::new(t, msg.to_owned())
}

} // verus!
