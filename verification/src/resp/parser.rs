//! Outbound reply values and their exact wire forms, plus the argument
//! extraction for the SET command.

use vstd::prelude::*;
use vstd::utf8::encode_utf8;

use crate::enums::sign::{spec_sign_char, Sign};
use crate::errors::app_errors::AppError;
use crate::strutil::{
    dec_chars, is_usize_digits, parse_usize, str_to_chars, u64_to_dec_string, usize_digits_val,
};

verus! {

/// A reply value, one variant per wire form.
pub enum Parser {
    SimpleString(String),
    SimpleError(String),
    BulkString(String),
    NullBulkString,
    Array(Vec<String>),
    Integer(Option<Sign>, u16),
}

/// The line terminator of the wire protocol.
pub open spec fn crlf() -> Seq<char> {
    seq!['\r', '\n']
}

/// The byte count of a string as the machine reports it: the length of
/// its UTF-8 encoding, held in a `usize`.
pub open spec fn spec_byte_len(s: Seq<char>) -> nat {
    (encode_utf8(s).len() as usize) as nat
}

/// Wire form of one bulk string: `$<byte count>\r\n<content>\r\n`.
pub open spec fn spec_bulk(s: Seq<char>) -> Seq<char> {
    seq!['$'] + dec_chars(spec_byte_len(s)) + crlf() + s + crlf()
}

/// The elements of an array reply, each as a bulk string, in order.
pub open spec fn spec_array_items(v: Seq<String>) -> Seq<char>
    decreases v.len(),
{
    if v.len() == 0 {
        Seq::empty()
    } else {
        spec_bulk(v[0]@) + spec_array_items(v.drop_first())
    }
}

/// Appending an element to an array appends its bulk form to the wire text.
pub proof fn lemma_array_items_push(v: Seq<String>, x: String)
    ensures
        spec_array_items(v.push(x)) == spec_array_items(v) + spec_bulk(x@),
    decreases v.len(),
{
    if v.len() == 0 {
        assert(v.push(x).drop_first() =~= Seq::<String>::empty());
        assert(v.push(x)[0] == x);
        assert(spec_array_items(v.push(x).drop_first()) =~= Seq::<char>::empty());
        assert(spec_array_items(v.push(x)) =~= spec_bulk(x@));
        assert(spec_array_items(v) + spec_bulk(x@) =~= spec_bulk(x@));
    } else {
        assert(v.push(x).drop_first() =~= v.drop_first().push(x));
        lemma_array_items_push(v.drop_first(), x);
        assert(spec_array_items(v.push(x)) =~= spec_array_items(v) + spec_bulk(x@));
    }
}

/// The full wire form of a reply value.
pub open spec fn spec_serialize(p: &Parser) -> Seq<char> {
    match p {
        Parser::SimpleString(s) => seq!['+'] + s@ + crlf(),
        Parser::SimpleError(s) => seq!['-'] + s@ + crlf(),
        Parser::BulkString(s) => spec_bulk(s@),
        Parser::NullBulkString => seq!['$', '-', '1', '\r', '\n'],
        Parser::Array(v) => seq!['*'] + dec_chars(v@.len()) + crlf() + spec_array_items(v@),
        Parser::Integer(sign, i) => seq![':'] + (match sign {
            Some(sg) => seq![spec_sign_char(*sg)],
            None => Seq::empty(),
        }) + dec_chars(*i as nat) + crlf(),
    }
}

/// One bulk string in wire form.
fn bulk_string_wire(s: &String) -> (r: String)
    ensures
        r@ == spec_bulk(s@),
{
    proof {
        reveal_strlit("$");
        reveal_strlit("\r\n");
    }
    let mut r = String::from_str("$");
    let len_str = u64_to_dec_string(s.as_str().len() as u64);
    r.append(len_str.as_str());
    r.append("\r\n");
    r.append(s.as_str());
    r.append("\r\n");
    r
}

impl Parser {
    /// Serializes the reply into its exact wire text.
    pub fn serialize(&self) -> (r: String)
        ensures
            r@ == spec_serialize(self),
    {
        proof {
            reveal_strlit("+");
            reveal_strlit("-");
            reveal_strlit(":");
            reveal_strlit("*");
            reveal_strlit("$-1\r\n");
            reveal_strlit("\r\n");
        }
        match self {
            Parser::SimpleString(s) => {
                let mut r = String::from_str("+");
                r.append(s.as_str());
                r.append("\r\n");
                r
            },
            Parser::SimpleError(s) => {
                let mut r = String::from_str("-");
                r.append(s.as_str());
                r.append("\r\n");
                r
            },
            Parser::BulkString(s) => bulk_string_wire(s),
            Parser::NullBulkString => String::from_str("$-1\r\n"),
            Parser::Array(v) => {
                let mut r = String::from_str("*");
                let len_str = u64_to_dec_string(v.len() as u64);
                r.append(len_str.as_str());
                r.append("\r\n");
                let mut i: usize = 0;
                while i < v.len()
                    invariant
                        i <= v@.len(),
                        r@ == seq!['*'] + dec_chars(v@.len()) + crlf() + spec_array_items(
                            v@.take(i as int),
                        ),
                    decreases v@.len() - i,
                {
                    let item = bulk_string_wire(&v[i]);
                    r.append(item.as_str());
                    proof {
                        assert(v@.take(i + 1) =~= v@.take(i as int).push(v@[i as int]));
                        lemma_array_items_push(v@.take(i as int), v@[i as int]);
                    }
                    i = i + 1;
                }
                proof {
                    assert(v@.take(v@.len() as int) =~= v@);
                }
                r
            },
            Parser::Integer(sign, i) => {
                let mut r = String::from_str(":");
                match sign {
                    Some(sg) => r.append(sg.as_str()),
                    None => (),
                }
                let num = u64_to_dec_string(*i as u64);
                r.append(num.as_str());
                r.append("\r\n");
                r
            },
        }
    }
}

/// The `PX` option keyword, recognized in either letter case, as the
/// protocol writes options.
pub open spec fn spec_is_px_marker(s: Seq<char>) -> bool {
    s.len() == 2 && (s[0] == 'p' || s[0] == 'P') && (s[1] == 'x' || s[1] == 'X')
}

/// Whether the argument is the `PX` keyword, in either letter case.
fn is_px_marker(s: &str) -> (r: bool)
    ensures
        r == spec_is_px_marker(s@),
{
    if s.unicode_len() != 2 {
        return false;
    }
    let c0 = s.get_char(0);
    let c1 = s.get_char(1);
    (c0 == 'p' || c0 == 'P') && (c1 == 'x' || c1 == 'X')
}

/// Pulls key, value and the optional `PX` expiry out of the arguments of a
/// SET command. Fewer than two arguments is an arity error; a `PX` marker
/// (in either letter case) in third position takes its millisecond count
/// from the fourth argument, and a count that does not parse as an
/// unsigned number is an invalid expiration value.
pub fn extract_set_command_args(args: Vec<String>) -> (r: Result<(String, String, usize), AppError>)
    ensures
        args@.len() < 2 ==> r == Err::<(String, String, usize), AppError>(
            AppError::WrongNumberOfArgumentsError,
        ),
        args@.len() >= 2 ==> {
            let px = args@.len() > 3 && spec_is_px_marker(args@[2]@);
            &&& (!px ==> (r matches Ok(t) && t.0@ == args@[0]@ && t.1@ == args@[1]@ && t.2 == 0))
            &&& (px && is_usize_digits(args@[3]@) ==> (r matches Ok(t) && t.0@ == args@[0]@ && t.1@
                == args@[1]@ && t.2 == usize_digits_val(args@[3]@)))
            &&& (px && !is_usize_digits(args@[3]@) ==> r == Err::<(String, String, usize), AppError>(
                AppError::InvalidExpirationValue,
            ))
        },
{
    if args.len() < 2 {
        return Err(AppError::WrongNumberOfArgumentsError);
    }
    let key = args[0].clone();
    let value = args[1].clone();
    let expiration: usize = if args.len() > 3 && is_px_marker(args[2].as_str()) {
        let chars = str_to_chars(args[3].as_str());
        match parse_usize(&chars) {
            Some(exp) => exp,
            None => {
                return Err(AppError::InvalidExpirationValue);
            },
        }
    } else {
        0
    };
    Ok((key, value, expiration))
}

} // verus!
