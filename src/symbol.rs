//! Short function names from symbol names, for diagnostics.
use crate::lexer::{char_vec, find_char, find_char_from, lemma_find_char_bounds};
use vstd::prelude::*;
use vstd::string::{StrSliceExecFns, StringExecFns};

verus! {

/// What `rustc_demangle` prints for a symbol name.
pub uninterp spec fn demangled_of(symbol: Seq<char>) -> Seq<char>;

/// Relies on `rustc_demangle::demangle` and its `Display`: the readable form
/// of a mangled Rust symbol, or the text itself where it is not one. The
/// result depends on the text alone.
#[verifier::external_body]
fn demangle_symbol(symbol: &str) -> (r: String)
    ensures
        r@ == demangled_of(symbol@),
{
    rustc_demangle::demangle(symbol).to_string()
}

/// Where the last `::`-separated piece of `h` starts, scanning from `i` with
/// the current piece starting at `start`; pieces split left to right.
pub open spec fn segment_start(h: Seq<char>, i: int, start: int) -> int
    decreases h.len() - i,
{
    if 0 <= i && i + 1 < h.len() && h[i] == ':' && h[i + 1] == ':' {
        segment_start(h, i + 2, i + 2)
    } else if 0 <= i < h.len() {
        segment_start(h, i + 1, start)
    } else {
        start
    }
}

/// The text before the first `<`, and of that the piece after the last `::`.
pub open spec fn short_name(d: Seq<char>) -> Seq<char> {
    let h = d.subrange(0, find_char(d, 0, '<'));
    h.subrange(segment_start(h, 0, 0), h.len() as int)
}

/// The function name that a demangled symbol ends in.
pub fn short_function_name(demangled: &str) -> (r: String)
    ensures
        r@ == short_name(demangled@),
{
    let chars = char_vec(demangled);
    let end = find_char_from(&chars, 0, '<');
    proof {
        lemma_find_char_bounds(chars@, 0, '<');
    }
    let ghost h = chars@.subrange(0, end as int);
    let mut i: usize = 0;
    let mut start: usize = 0;
    while i < end
        invariant
            0 <= start <= i <= end <= chars.len(),
            h == chars@.subrange(0, end as int),
            segment_start(h, 0, 0) == segment_start(h, i as int, start as int),
        decreases end - i,
    {
        if end - i > 1 && chars[i] == ':' && chars[i + 1] == ':' {
            i = i + 2;
            start = i;
        } else {
            i = i + 1;
        }
    }
    let piece = demangled.substring_char(start, end);
    assert(piece@ =~= h.subrange(start as int, h.len() as int));
    String::from_str(piece)
}

/// The short function name of a mangled symbol.
pub fn function_name_of(symbol: &str) -> (r: String)
    ensures
        r@ == short_name(demangled_of(symbol@)),
{
    let d = demangle_symbol(symbol);
    short_function_name(d.as_str())
}

} // verus!
