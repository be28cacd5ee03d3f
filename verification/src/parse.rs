//! Lenient number parsing for the command line.
//!
//! Counts may be written with SI suffixes ("1K"), commas ("1,000") or
//! underscores ("1_000"). The separators are stripped and an upper-case `K`
//! lowered here, in verified code; the cleaned string then goes to
//! `clap_num`'s SI-number parser.

use vstd::prelude::*;

verus! {

/// The lenient spelling of a number, cleaned: commas and underscores dropped,
/// an upper-case K lowered.
pub open spec fn spec_normalized(s: Seq<char>) -> Seq<char>
    decreases s,
{
    if s.len() == 0 {
        Seq::<char>::empty()
    } else {
        let rest = spec_normalized(s.subrange(1, s.len() as int));
        if s[0] == ',' || s[0] == '_' {
            rest
        } else if s[0] == 'K' {
            seq!['k'] + rest
        } else {
            seq![s[0]] + rest
        }
    }
}

/// Relies on `str::chars`: the characters of the string, in order.
#[verifier::external_body]
fn chars_of(s: &str) -> (r: Vec<char>)
    ensures
        r@ == s@,
{
    s.chars().collect()
}

/// The value that `clap_num`'s `si_number` reads a string of characters as,
/// where it accepts the string at all.
pub uninterp spec fn si_value(s: Seq<char>) -> Option<usize>;

/// Relies on `clap_num::si_number`: a pure, total parser of SI-suffixed
/// numbers, whose outcome is a function of the characters alone.
#[verifier::external_body]
fn si_number_of(chars: &Vec<char>) -> (r: Result<usize, String>)
    ensures
        r is Ok <==> si_value(chars@) is Some,
        r matches Ok(v) ==> si_value(chars@) == Some(v),
{
    let s: String = chars.iter().collect();
    clap_num::si_number::<usize>(&s)
}

/// Clean a lenient spelling: drop commas and underscores, lower a `K`.
fn normalize(chars: &Vec<char>) -> (r: Vec<char>)
    ensures
        r@ == spec_normalized(chars@),
{
    let n = chars.len();
    let mut out: Vec<char> = Vec::new();
    let mut j: usize = 0;
    proof {
        assert(chars@.subrange(0, chars@.len() as int) =~= chars@);
        assert(Seq::<char>::empty() + spec_normalized(chars@) =~= spec_normalized(chars@));
    }
    while j < n
        invariant
            0 <= j <= n == chars@.len(),
            spec_normalized(chars@) == out@ + spec_normalized(
                chars@.subrange(j as int, chars@.len() as int),
            ),
        decreases n - j,
    {
        let c = chars[j];
        proof {
            let suf = chars@.subrange(j as int, chars@.len() as int);
            let suf2 = chars@.subrange(j as int + 1, chars@.len() as int);
            assert(suf[0] == chars@[j as int]);
            assert(suf.subrange(1, suf.len() as int) =~= suf2);
            if !(c == ',' || c == '_') {
                let kept = if c == 'K' {
                    'k'
                } else {
                    c
                };
                assert(out@ + spec_normalized(suf) =~= out@.push(kept) + spec_normalized(suf2));
            }
        }
        if c == ',' || c == '_' {
        } else if c == 'K' {
            out.push('k');
        } else {
            out.push(c);
        }
        j = j + 1;
    }
    proof {
        assert(chars@.subrange(chars@.len() as int, chars@.len() as int)
            =~= Seq::<char>::empty());
        assert(out@ + Seq::<char>::empty() =~= out@);
    }
    out
}

/// Read a lenient SI number: the cleaned spelling, handed to the SI parser.
pub fn lenient_si_number(s: &str) -> (r: Result<usize, String>)
    ensures
        r is Ok <==> si_value(spec_normalized(s@)) is Some,
        r matches Ok(v) ==> si_value(spec_normalized(s@)) == Some(v),
{
    let cs = chars_of(s);
    let cleaned = normalize(&cs);
    si_number_of(&cleaned)
}

/// Parse a file count: a lenient SI number that must be positive.
pub fn num_files_parser(s: &str) -> (r: Result<usize, String>)
    ensures
        r is Ok <==> (si_value(spec_normalized(s@)) matches Some(v) && v >= 1),
        r matches Ok(v) ==> si_value(spec_normalized(s@)) == Some(v) && v >= 1,
{
    match lenient_si_number(s) {
        Ok(files) => {
            if files > 0 {
                Ok(files)
            } else {
                Err("At least one file must be generated.".to_owned())
            }
        },
        Err(e) => Err(e),
    }
}

/// Parse a file-to-dir ratio: a lenient SI number that must be positive.
pub fn file_to_dir_ratio_parser(s: &str) -> (r: Result<usize, String>)
    ensures
        r is Ok <==> (si_value(spec_normalized(s@)) matches Some(v) && v >= 1),
        r matches Ok(v) ==> si_value(spec_normalized(s@)) == Some(v) && v >= 1,
{
    match lenient_si_number(s) {
        Ok(ratio) => {
            if ratio > 0 {
                Ok(ratio)
            } else {
                Err("Cannot have no files per directory.".to_owned())
            }
        },
        Err(e) => Err(e),
    }
}

} // verus!
