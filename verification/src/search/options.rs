use vstd::prelude::*;

verus! {

use crate::board::fen::{parse_u32, is_u32_number, digits_value, number_digits};
use vstd::string::StringSliceAdditionalSpecFns;

/// The limits of a search, as the `go` command gives them.
#[derive(Debug, Clone, Copy)]
pub struct SearchOptions {
    pub depth: Option<u8>,
    pub movetime: Option<u32>,
    pub infinite: bool,
    pub ponder: bool,
    pub wtime: Option<u32>,
    pub btime: Option<u32>,
    pub winc: Option<u32>,
    pub binc: Option<u32>,
    pub movestogo: Option<u32>,
}

/// No limit given.
pub open spec fn no_options() -> SearchOptions {
    SearchOptions {
        depth: None,
        movetime: None,
        infinite: false,
        ponder: false,
        wtime: None,
        btime: None,
        winc: None,
        binc: None,
        movestogo: None,
    }
}

/// Whether the token names a limit followed by a number.
pub open spec fn is_numeric_keyword(t: Seq<char>) -> bool {
    t == "depth"@ || t == "binc"@ || t == "winc"@ || t == "btime"@ || t == "wtime"@
        || t == "movestogo"@ || t == "movetime"@
}

/// Whether every limit named among the tokens after the first is followed by a number that
/// fits in 32 bits.
pub open spec fn tokens_valid(tokens: Seq<&str>) -> bool {
    forall|i: int| 1 <= i < tokens.len() && is_numeric_keyword(#[trigger] tokens[i]@)
        ==> i + 1 < tokens.len() && is_u32_number(tokens[i + 1].spec_bytes())
}

/// The number the token after `i` holds.
pub open spec fn value_after(tokens: Seq<&str>, i: int) -> u32 {
    digits_value(number_digits(tokens[i + 1].spec_bytes())) as u32
}

/// The options once token `i` is read: `infinite` and `ponder` set their flag; a limit's name
/// sets that limit to the number after it (the depth cut to its low eight bits); any other
/// token changes nothing.
pub open spec fn apply_token(o: SearchOptions, tokens: Seq<&str>, i: int) -> SearchOptions {
    let t = tokens[i]@;
    if t == "infinite"@ {
        SearchOptions { infinite: true, ..o }
    } else if t == "ponder"@ {
        SearchOptions { ponder: true, ..o }
    } else if t == "movetime"@ {
        SearchOptions { movetime: Some(value_after(tokens, i)), ..o }
    } else if t == "depth"@ {
        SearchOptions { depth: Some(value_after(tokens, i) as u8), ..o }
    } else if t == "binc"@ {
        SearchOptions { binc: Some(value_after(tokens, i)), ..o }
    } else if t == "winc"@ {
        SearchOptions { winc: Some(value_after(tokens, i)), ..o }
    } else if t == "btime"@ {
        SearchOptions { btime: Some(value_after(tokens, i)), ..o }
    } else if t == "wtime"@ {
        SearchOptions { wtime: Some(value_after(tokens, i)), ..o }
    } else if t == "movestogo"@ {
        SearchOptions { movestogo: Some(value_after(tokens, i)), ..o }
    } else {
        o
    }
}

/// The options read from the tokens after the first, up to token `n`.
pub open spec fn options_upto(tokens: Seq<&str>, n: int) -> SearchOptions
    decreases n,
{
    if n <= 1 {
        no_options()
    } else {
        apply_token(options_upto(tokens, n - 1), tokens, n - 1)
    }
}

/// Whether two strings hold the same characters.
fn same_text(a: &str, b: &str) -> (r: bool)
    ensures
        r == (a@ == b@),
{
    let x = a.to_owned();
    let y = b.to_owned();
    x == y
}

impl SearchOptions {
    /// No limit given.
    pub fn new() -> (r: SearchOptions)
        ensures
            r == no_options(),
    {
        SearchOptions {
            depth: None,
            movetime: None,
            infinite: false,
            ponder: false,
            wtime: None,
            btime: None,
            winc: None,
            binc: None,
            movestogo: None,
        }
    }

    /// Whether `from_tokens` accepts the tokens: every limit named is followed by a number.
    pub fn tokens_valid(tokens: &Vec<&str>) -> (r: bool)
        ensures
            r == tokens_valid(tokens@),
    {
        let mut i: usize = 1;
        while i < tokens.len()
            invariant
                1 <= i,
                forall|k: int| 1 <= k < i && k < tokens@.len() && is_numeric_keyword(#[trigger] tokens@[k]@)
                    ==> k + 1 < tokens@.len() && is_u32_number(tokens@[k + 1].spec_bytes()),
            decreases tokens.len() - i,
        {
            let t = tokens[i];
            let numeric = same_text(t, "depth") || same_text(t, "binc") || same_text(t, "winc")
                || same_text(t, "btime") || same_text(t, "wtime") || same_text(t, "movestogo")
                || same_text(t, "movetime");
            if numeric {
                if i + 1 >= tokens.len() {
                    return false;
                }
                let bytes = vstd::slice::slice_to_vec(tokens[i + 1].as_bytes());
                if parse_u32(&bytes).is_none() {
                    return false;
                }
            }
            i = i + 1;
        }
        true
    }

    /// The options of a `go` command given as tokens, the first being `go` itself.
    pub fn from_tokens(tokens: &Vec<&str>) -> (r: SearchOptions)
        requires
            tokens_valid(tokens@),
        ensures
            r == options_upto(tokens@, tokens@.len() as int),
    {
        let mut options = SearchOptions::new();
        let mut i: usize = 1;
        while i < tokens.len()
            invariant
                1 <= i <= tokens@.len() || (i == 1 && tokens@.len() <= 1),
                tokens_valid(tokens@),
                options == options_upto(tokens@, i as int),
            decreases tokens.len() - i,
        {
            let t = tokens[i];
            if same_text(t, "infinite") {
                options.infinite = true;
            } else if same_text(t, "ponder") {
                options.ponder = true;
            } else if same_text(t, "movetime") || same_text(t, "depth") || same_text(t, "binc")
                || same_text(t, "winc") || same_text(t, "btime") || same_text(t, "wtime")
                || same_text(t, "movestogo") {
                proof {
                    assert(is_numeric_keyword(tokens@[i as int]@));
                }
                let bytes = vstd::slice::slice_to_vec(tokens[i + 1].as_bytes());
                let value = match parse_u32(&bytes) {
                    Some(v) => v,
                    None => 0,
                };
                if same_text(t, "movetime") {
                    options.movetime = Some(value);
                } else if same_text(t, "depth") {
                    options.depth = Some(value as u8);
                } else if same_text(t, "binc") {
                    options.binc = Some(value);
                } else if same_text(t, "winc") {
                    options.winc = Some(value);
                } else if same_text(t, "btime") {
                    options.btime = Some(value);
                } else if same_text(t, "wtime") {
                    options.wtime = Some(value);
                } else {
                    options.movestogo = Some(value);
                }
            }
            i = i + 1;
        }
        options
    }
}

} // verus!
