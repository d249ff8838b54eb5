//! Outcome of a batch of quote requests: the per-symbol failure message, and
//! whether the batch as a whole fails, with its combined message.

use vstd::prelude::*;
use vstd::string::StringSliceAdditionalSpecFns;

use crate::text::joined;

verus! {

/// Which quote batch is reported on.
#[derive(Debug, Clone, Copy, PartialEq, Eq, Structural)]
pub enum QuoteSource {
    Crypto,
    TradFi,
}

/// The first line of the message of a batch where every request failed.
pub open spec fn batch_failure_header(source: QuoteSource) -> Seq<char> {
    match source {
        QuoteSource::Crypto => "所有币种行情获取失败:\n"@,
        QuoteSource::TradFi => "所有 TradFi 行情获取失败:\n"@,
    }
}

/// The characters of each string of a list.
pub open spec fn lines_view(v: Seq<String>) -> Seq<Seq<char>> {
    v.map_values(|s: String| s@)
}

/// The message recorded when the quote of one symbol cannot be had.
pub fn quote_failure_message(symbol: &str, error: &str) -> (r: String)
    ensures
        r@ == "获取 "@ + symbol@ + " 行情失败: "@ + error@,
{
    let mut r = String::new();
    r.append("获取 ");
    r.append(symbol);
    r.append(" 行情失败: ");
    r.append(error);
    r
}

/// The lines of `lines`, joined by newlines.
pub fn join_lines(lines: &Vec<String>) -> (r: String)
    ensures
        r@ == joined(lines_view(lines@), "\n"@),
{
    let mut r = String::new();
    let mut i: usize = 0;
    while i < lines.len()
        invariant
            i <= lines.len(),
            r@ == joined(lines_view(lines@.subrange(0, i as int)), "\n"@),
        decreases lines.len() - i,
    {
        let ghost before = lines_view(lines@.subrange(0, i as int));
        let ghost after = lines_view(lines@.subrange(0, i + 1));
        assert(after.drop_last() =~= before);
        assert(after.last() == lines@[i as int]@);
        if i > 0 {
            r.append("\n");
        } else {
            assert(before.len() == 0);
            assert(r@ =~= Seq::<char>::empty());
        }
        r.append(lines[i].as_str());
        i = i + 1;
    }
    assert(lines@.subrange(0, lines.len() as int) =~= lines@);
    r
}

/// The outcome of a batch: it fails only when nothing succeeded and something
/// failed, with the header and every failure message, one per line.
pub fn batch_outcome(source: QuoteSource, succeeded: usize, errors: &Vec<String>) -> (r: Result<(), String>)
    ensures
        r is Err <==> (succeeded == 0 && errors.len() > 0),
        r matches Err(msg) ==> msg@ == batch_failure_header(source) + joined(lines_view(errors@), "\n"@),
{
    if succeeded == 0 && errors.len() > 0 {
        let mut msg = String::new();
        match source {
            QuoteSource::Crypto => msg.append("所有币种行情获取失败:\n"),
            QuoteSource::TradFi => msg.append("所有 TradFi 行情获取失败:\n"),
        }
        let body = join_lines(errors);
        msg.append(body.as_str());
        Err(msg)
    } else {
        Ok(())
    }
}

/// How many bytes of a body of `len` bytes an excerpt keeps: at most 300.
pub open spec fn excerpt_len(len: usize) -> int {
    if len < 300 {
        len as int
    } else {
        300
    }
}

/// The first 300 bytes of a response body (all of it when shorter), quoted
/// in error messages. The cut must fall on a character boundary.
pub fn body_excerpt(text: &str) -> (r: &str)
    requires
        vstd::utf8::is_char_boundary(text.spec_bytes(), excerpt_len(text.len())),
    ensures
        r.spec_bytes() == text.spec_bytes().subrange(0, excerpt_len(text.len())),
{
    let n = text.len();
    let cut: usize = if n < 300 {
        n
    } else {
        300
    };
    let (head, _) = text.split_at(cut);
    head
}

} // verus!
