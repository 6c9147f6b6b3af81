//! Paging of list queries: the window a query returns and the links to the
//! first, previous, next and last windows.
use vstd::prelude::*;
use vstd::string::*;
use crate::indexer::ApiError;

verus! {

pub const DEFAULT_LIMIT: i64 = 100;

pub const DEFAULT_OFFSET: i64 = 0;

/// The character of a decimal digit.
pub open spec fn digit_char(d: nat) -> char {
    if d == 0 { '0' }
    else if d == 1 { '1' }
    else if d == 2 { '2' }
    else if d == 3 { '3' }
    else if d == 4 { '4' }
    else if d == 5 { '5' }
    else if d == 6 { '6' }
    else if d == 7 { '7' }
    else if d == 8 { '8' }
    else { '9' }
}

/// The decimal digits of `n`, most significant first.
pub open spec fn digits(n: nat) -> Seq<char>
    decreases n,
{
    if n < 10 {
        seq![digit_char(n)]
    } else {
        digits(n / 10) + seq![digit_char(n % 10)]
    }
}

/// `n` written in decimal, with a leading minus sign when negative.
pub open spec fn decimal(n: int) -> Seq<char> {
    if n < 0 {
        seq!['-'] + digits((-n) as nat)
    } else {
        digits(n as nat)
    }
}

fn digit_str(d: u64) -> (r: &'static str)
    requires
        d < 10,
    ensures
        r@ == seq![digit_char(d as nat)],
{
    if d == 0 {
        proof { reveal_strlit("0"); }
        "0"
    } else if d == 1 {
        proof { reveal_strlit("1"); }
        "1"
    } else if d == 2 {
        proof { reveal_strlit("2"); }
        "2"
    } else if d == 3 {
        proof { reveal_strlit("3"); }
        "3"
    } else if d == 4 {
        proof { reveal_strlit("4"); }
        "4"
    } else if d == 5 {
        proof { reveal_strlit("5"); }
        "5"
    } else if d == 6 {
        proof { reveal_strlit("6"); }
        "6"
    } else if d == 7 {
        proof { reveal_strlit("7"); }
        "7"
    } else if d == 8 {
        proof { reveal_strlit("8"); }
        "8"
    } else {
        proof { reveal_strlit("9"); }
        "9"
    }
}

fn push_digits(s: &mut String, n: u64)
    ensures
        final(s)@ == old(s)@ + digits(n as nat),
    decreases n,
{
    if n >= 10 {
        push_digits(s, n / 10);
    }
    s.append(digit_str(n % 10));
    proof {
        if n >= 10 {
            assert(final(s)@ =~= old(s)@ + digits(n as nat));
        } else {
            assert(final(s)@ =~= old(s)@ + digits(n as nat));
        }
    }
}

/// Appends `n` in decimal.
pub fn push_decimal(s: &mut String, n: i64)
    ensures
        final(s)@ == old(s)@ + decimal(n as int),
{
    if n < 0 {
        proof { reveal_strlit("-"); }
        s.append("-");
        let magnitude: u64 = (0 - (n as i128)) as u64;
        push_digits(s, magnitude);
        assert(final(s)@ =~= old(s)@ + decimal(n as int));
    } else {
        push_digits(s, n as u64);
    }
}

/// The paging part of a list response.
#[derive(Debug, PartialEq, Eq)]
pub struct PagingInfo {
    /// The link to this window.
    pub link: String,
    pub offset: i64,
    pub limit: i64,
    pub total: i64,
    pub first: String,
    pub prev: String,
    pub next: String,
    pub last: String,
}

/// The offset of the window before the one at `offset`.
pub open spec fn previous_offset(offset: int, limit: int) -> int {
    if offset - limit >= 0 { offset - limit } else { 0 }
}

/// The offset of the last window of `count` rows; with no rows, `(0 - 1) /
/// limit` rounds toward zero.
pub open spec fn last_offset(count: int, limit: int) -> int {
    if count >= 1 {
        ((count - 1) / limit) * limit
    } else if limit == 1 {
        -1
    } else {
        0
    }
}

/// The offset of the window after the one at `offset`, at most the last.
pub open spec fn next_offset(offset: int, limit: int, last: int) -> int {
    if offset + limit > last { last } else { offset + limit }
}

/// `link` followed by `limit=<limit>&offset=<offset>`.
pub open spec fn window_link(link: Seq<char>, limit: int, offset: int) -> Seq<char> {
    link + "limit="@ + decimal(limit) + "&"@ + "offset="@ + decimal(offset)
}

fn make_window_link(link: &String, limit: i64, offset: i64) -> (r: String)
    ensures
        r@ == window_link(link@, limit as int, offset as int),
{
    let mut s = link.clone();
    s.append("limit=");
    push_decimal(&mut s, limit);
    s.append("&");
    s.append("offset=");
    push_decimal(&mut s, offset);
    s
}

/// The paging of a list of `query_count` rows, with the defaults for the
/// limit and offset not given; a limit below one, a negative offset or a
/// negative count is a bad request.
pub fn get_response_paging_info(
    limit: Option<i64>,
    offset: Option<i64>,
    link: String,
    query_count: i64,
) -> (r: Result<PagingInfo, ApiError>)
    ensures
        ({
            let l = match limit { Some(x) => x, None => DEFAULT_LIMIT };
            let o = match offset { Some(x) => x, None => DEFAULT_OFFSET };
            let last = last_offset(query_count as int, l as int);
            if l < 1 || o < 0 || query_count < 0 {
                r is Err && r->Err_0 is BadRequest
            } else {
                r is Ok && {
                    let p = r->Ok_0;
                    &&& p.offset == o
                    &&& p.limit == l
                    &&& p.total == query_count
                    &&& p.link@ == window_link(link@, l as int, o as int)
                    &&& p.first@ == window_link(link@, l as int, 0)
                    &&& p.prev@ == window_link(link@, l as int, previous_offset(o as int, l as int))
                    &&& p.next@ == window_link(link@, l as int, next_offset(o as int, l as int, last))
                    &&& p.last@ == window_link(link@, l as int, last)
                }
            }
        }),
{
    let limit = match limit {
        Some(x) => x,
        None => DEFAULT_LIMIT,
    };
    let offset = match offset {
        Some(x) => x,
        None => DEFAULT_OFFSET,
    };
    if limit < 1 || offset < 0 || query_count < 0 {
        return Err(ApiError::BadRequest("limit, offset and count must not be negative, limit not zero".to_string()));
    }
    let previous = if offset - limit >= 0 {
        offset - limit
    } else {
        0
    };
    let last: i64 = if query_count >= 1 {
        let q = (query_count - 1) / limit;
        proof {
            let a = (query_count - 1) as int;
            let b = limit as int;
            assert(0 <= (a / b) * b <= a) by (nonlinear_arith)
                requires a >= 0, b >= 1;
        }
        q * limit
    } else if limit == 1 {
        -1
    } else {
        0
    };
    let next = if offset > last - limit {
        last
    } else {
        offset + limit
    };
    Ok(PagingInfo {
        link: make_window_link(&link, limit, offset),
        offset,
        limit,
        total: query_count,
        first: make_window_link(&link, limit, 0),
        prev: make_window_link(&link, limit, previous),
        next: make_window_link(&link, limit, next),
        last: make_window_link(&link, limit, last),
    })
}

} // verus!
