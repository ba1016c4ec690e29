//! Text edits for a release.
//!
//! A release rewrites the version in the manifests, the changelog and the
//! documentation links. The files are text; this module finds and replaces
//! in them as bytes, so that the tool that reads and writes the files has
//! nothing to decide.
use vstd::prelude::*;

verus! {

/// The text `version = "`, after which a manifest gives its version.
pub const VERSION_KEY: [u8; 11] = [118, 101, 114, 115, 105, 111, 110, 32, 61, 32, 34];

/// The double quote that ends the version.
pub const QUOTE: u8 = 34;

/// Whether `needle` stands in `text` at index `at`.
pub open spec fn occurs_at(text: Seq<u8>, needle: Seq<u8>, at: int) -> bool {
    &&& 0 <= at
    &&& at + needle.len() <= text.len()
    &&& text.subrange(at, at + needle.len()) == needle
}

/// Whether `at` is the index of the first occurrence of `needle` in `text`.
pub open spec fn first_at(text: Seq<u8>, needle: Seq<u8>, at: int) -> bool {
    &&& occurs_at(text, needle, at)
    &&& forall|earlier: int| 0 <= earlier < at ==> !occurs_at(text, needle, earlier)
}

/// Whether `needle` does not occur in `text`.
pub open spec fn absent(text: Seq<u8>, needle: Seq<u8>) -> bool {
    forall|at: int| !occurs_at(text, needle, at)
}

/// `text` with the `len` bytes from `at` on replaced by `to`.
pub open spec fn spliced(text: Seq<u8>, at: int, len: int, to: Seq<u8>) -> Seq<u8> {
    text.subrange(0, at) + to + text.subrange(at + len, text.len() as int)
}

/// Says whether `needle` stands in `text` at index `at`.
fn matches_at(text: &[u8], needle: &[u8], at: usize) -> (matches: bool)
    requires
        at + needle.len() <= text.len(),
    ensures
        matches == occurs_at(text@, needle@, at as int),
{
    let mut i: usize = 0;
    while i < needle.len()
        invariant
            i <= needle.len(),
            at + needle.len() <= text.len(),
            forall|j: int| 0 <= j < i ==> text[at + j] == needle[j],
        decreases needle.len() - i,
    {
        if text[at + i] != needle[i] {
            proof {
                let part = text@.subrange(at as int, at + needle.len());
                assert(part[i as int] == text[at + i]);
            }
            return false;
        }
        i += 1;
    }
    assert(text@.subrange(at as int, at + needle.len()) =~= needle@);
    true
}

/// Returns the index of the first occurrence of `needle` in `text` at or
/// after `from`, or `None` if there is none.
fn find_from(text: &[u8], needle: &[u8], from: usize) -> (found: Option<usize>)
    ensures
        found matches Some(at) ==> from <= at && occurs_at(text@, needle@, at as int)
            && forall|earlier: int| from <= earlier < at ==> !occurs_at(text@, needle@, earlier),
        found is None ==> forall|at: int| from <= at ==> !occurs_at(text@, needle@, at),
{
    if needle.len() > text.len() || from > text.len() - needle.len() {
        return None;
    }
    let last = text.len() - needle.len();
    let mut at: usize = from;
    while at < last
        invariant
            from <= at <= last,
            last == text.len() - needle.len(),
            forall|earlier: int| from <= earlier < at ==> !occurs_at(text@, needle@, earlier),
        decreases last - at,
    {
        if matches_at(text, needle, at) {
            return Some(at);
        }
        at += 1;
    }
    if matches_at(text, needle, at) {
        Some(at)
    } else {
        None
    }
}

/// Returns the index of the first occurrence of `needle` in `text`, or
/// `None` if `needle` does not occur. An empty needle occurs at index 0.
pub fn find(text: &[u8], needle: &[u8]) -> (found: Option<usize>)
    ensures
        found matches Some(at) ==> first_at(text@, needle@, at as int),
        found is None ==> absent(text@, needle@),
{
    find_from(text, needle, 0)
}

/// Returns `text` with the first occurrence of `from` replaced by `to`, or
/// `None` if `from` does not occur in `text`.
pub fn replace_first(text: &[u8], from: &[u8], to: &[u8]) -> (replaced: Option<Vec<u8>>)
    ensures
        replaced matches Some(out) ==> exists|at: int|
            first_at(text@, from@, at) && out@ == spliced(text@, at, from.len() as int, to@),
        replaced is None ==> absent(text@, from@),
{
    match find(text, from) {
        None => None,
        Some(at) => {
            let mut out: Vec<u8> = Vec::new();
            let mut i: usize = 0;
            while i < at
                invariant
                    i <= at <= text.len(),
                    out@ == text@.subrange(0, i as int),
                decreases at - i,
            {
                out.push(text[i]);
                assert(out@ =~= text@.subrange(0, i + 1));
                i += 1;
            }
            let mut j: usize = 0;
            while j < to.len()
                invariant
                    j <= to.len(),
                    out@ == text@.subrange(0, at as int) + to@.subrange(0, j as int),
                decreases to.len() - j,
            {
                out.push(to[j]);
                assert(out@ =~= text@.subrange(0, at as int) + to@.subrange(0, j + 1));
                j += 1;
            }
            assert(to@.subrange(0, to.len() as int) =~= to@);
            let rest = at + from.len();
            let mut k: usize = rest;
            while k < text.len()
                invariant
                    rest <= k <= text.len(),
                    out@ == text@.subrange(0, at as int) + to@ + text@.subrange(
                        rest as int,
                        k as int,
                    ),
                decreases text.len() - k,
            {
                out.push(text[k]);
                assert(out@ =~= text@.subrange(0, at as int) + to@ + text@.subrange(
                    rest as int,
                    k + 1,
                ));
                k += 1;
            }
            assert(first_at(text@, from@, at as int));
            Some(out)
        },
    }
}

/// Whether the version that the manifest `toml` gives stands from `start`
/// up to `end`: `start` follows the first `version = "`, and `end` is the
/// next double quote.
pub open spec fn version_span(toml: Seq<u8>, start: int, end: int) -> bool {
    &&& first_at(toml, VERSION_KEY@, start - VERSION_KEY@.len())
    &&& start <= end < toml.len()
    &&& toml[end] == QUOTE
    &&& forall|i: int| start <= i < end ==> toml[i] != QUOTE
}

/// Returns the place of the version in a manifest, as the indices of its
/// first byte and of the double quote behind it, or `None` if the manifest
/// has no `version = "` or no double quote after it.
pub fn package_version(toml: &[u8]) -> (span: Option<(usize, usize)>)
    ensures
        span matches Some((start, end)) ==> version_span(toml@, start as int, end as int),
        span is None ==> absent(toml@, VERSION_KEY@) || exists|at: int|
            first_at(toml@, VERSION_KEY@, at) && forall|i: int|
                at + VERSION_KEY@.len() <= i < toml.len() ==> toml[i] != QUOTE,
{
    let key = VERSION_KEY;
    match find(toml, &key) {
        None => None,
        Some(at) => {
            let len = toml.len();
            assert(occurs_at(toml@, key@, at as int) && key@.len() == 11 && at + 11 <= len);
            let start = at + 11;
            let quote = [QUOTE];
            match find_from(toml, &quote, start) {
                None => {
                    proof {
                        assert forall|i: int| start <= i < toml.len() implies toml[i] != QUOTE by {
                            if toml[i] == QUOTE {
                                assert(toml@.subrange(i, i + 1) =~= quote@);
                                assert(occurs_at(toml@, quote@, i));
                            }
                        }
                        assert(first_at(toml@, VERSION_KEY@, at as int));
                    }
                    None
                },
                Some(end) => {
                    proof {
                        assert(toml@.subrange(end as int, end + 1)[0] == quote@[0]);
                        assert forall|i: int| start <= i < end implies toml[i] != QUOTE by {
                            if toml[i] == QUOTE {
                                assert(toml@.subrange(i, i + 1) =~= quote@);
                                assert(occurs_at(toml@, quote@, i));
                            }
                        }
                    }
                    Some((start, end))
                },
            }
        },
    }
}

} // verus!
