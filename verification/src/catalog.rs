//! The catalog client's computable half: the request path for each fetch
//! key, and the error taxonomy of a fetch.
//!
//! The HTTP call itself and the JSON decoding of the body happen outside the
//! library; the path below the configured base URL is built here, and a
//! failed fetch is reported back as one of the `FetchError` variants.

use vstd::prelude::*;
use vstd::string::StringExecFns;
use crate::model::{FetchKey, KeyView};

verus! {

/// Why a catalog fetch failed: the network was unreachable, the response
/// body did not decode, or the response carried a non-success status.
/// A well-formed empty result is not an error; it is a domain outcome that
/// the reader turns into its not-found state.
#[derive(Clone, Copy, Debug, PartialEq, Eq, Structural)]
pub enum FetchError {
    Transport,
    Decode,
    Status,
}

/// The character of one decimal digit value.
pub open spec fn dec_digit_char(d: int) -> char {
    if d == 0 {
        '0'
    } else if d == 1 {
        '1'
    } else if d == 2 {
        '2'
    } else if d == 3 {
        '3'
    } else if d == 4 {
        '4'
    } else if d == 5 {
        '5'
    } else if d == 6 {
        '6'
    } else if d == 7 {
        '7'
    } else if d == 8 {
        '8'
    } else {
        '9'
    }
}

/// The decimal digits of a non-negative integer, most significant first.
pub open spec fn dec_digits(n: int) -> Seq<char>
    decreases n,
{
    if n < 10 {
        seq![dec_digit_char(n)]
    } else {
        dec_digits(n / 10).push(dec_digit_char(n % 10))
    }
}

/// The decimal numeral of an integer, with a leading `'-'` when negative.
pub open spec fn int_str(n: int) -> Seq<char> {
    if n < 0 {
        seq!['-'] + dec_digits(-n)
    } else {
        dec_digits(n)
    }
}

/// One decimal digit as a string slice.
fn digit_str(d: u64) -> (r: &'static str)
    requires
        d < 10,
    ensures
        r@ == seq![dec_digit_char(d as int)],
{
    let r: &'static str = if d == 0 {
        "0"
    } else if d == 1 {
        "1"
    } else if d == 2 {
        "2"
    } else if d == 3 {
        "3"
    } else if d == 4 {
        "4"
    } else if d == 5 {
        "5"
    } else if d == 6 {
        "6"
    } else if d == 7 {
        "7"
    } else if d == 8 {
        "8"
    } else {
        "9"
    };
    proof {
        reveal_strlit("0");
        reveal_strlit("1");
        reveal_strlit("2");
        reveal_strlit("3");
        reveal_strlit("4");
        reveal_strlit("5");
        reveal_strlit("6");
        reveal_strlit("7");
        reveal_strlit("8");
        reveal_strlit("9");
        assert(r@ =~= seq![dec_digit_char(d as int)]);
    }
    r
}

/// The decimal numeral of a non-negative machine integer.
pub fn u64_to_string(n: u64) -> (r: String)
    ensures
        r@ == dec_digits(n as int),
    decreases n,
{
    if n < 10 {
        digit_str(n).to_owned()
    } else {
        let mut s = u64_to_string(n / 10);
        s.append(digit_str(n % 10));
        proof {
            assert(s@ =~= dec_digits(n as int));
        }
        s
    }
}

/// The decimal numeral of a page or index value.
pub fn usize_to_string(n: usize) -> (r: String)
    ensures
        r@ == dec_digits(n as int),
{
    u64_to_string(n as u64)
}

/// The decimal numeral of an identifier, signed.
pub fn i32_to_string(n: i32) -> (r: String)
    ensures
        r@ == int_str(n as int),
{
    if n >= 0 {
        u64_to_string(n as u64)
    } else {
        let m: u64 = (-(n as i64)) as u64;
        let mut s = "-".to_owned();
        let digits = u64_to_string(m);
        s.append(digits.as_str());
        proof {
            reveal_strlit("-");
            assert(s@ =~= int_str(n as int));
        }
        s
    }
}

/// The request path of a fetch key, below the configured base URL.
pub open spec fn spec_request_path(k: KeyView) -> Seq<char> {
    match k {
        KeyView::AllManga => "/"@,
        KeyView::ChaptersFor { manga_id } => "/manga/"@ + int_str(manga_id),
        KeyView::PagesFor { manga_id, chapter_number } => "/manga/"@ + int_str(manga_id)
            + "/"@ + chapter_number,
    }
}

/// Builds the path of the backend endpoint that serves a fetch key:
/// `/` for the manga list, `/manga/{id}` for a chapter list, and
/// `/manga/{id}/{chapter}` for a page list.
pub fn request_path(key: &FetchKey) -> (r: String)
    ensures
        r@ == spec_request_path(key@),
{
    match key {
        FetchKey::AllManga => "/".to_owned(),
        FetchKey::ChaptersFor { manga_id } => {
            let mut s = "/manga/".to_owned();
            let id = i32_to_string(*manga_id);
            s.append(id.as_str());
            s
        },
        FetchKey::PagesFor { manga_id, chapter_number } => {
            let mut s = "/manga/".to_owned();
            let id = i32_to_string(*manga_id);
            s.append(id.as_str());
            s.append("/");
            s.append(chapter_number.as_str());
            s
        },
    }
}

} // verus!
