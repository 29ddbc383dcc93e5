//! Wildcard byte-signature search over a range of candidate start addresses.
use vstd::prelude::*;

use crate::memory::Memory;

verus! {

/// Why a scan produced no address.
#[derive(Debug, Clone, Copy, PartialEq, Eq, Structural)]
pub enum SearchError {
    /// The range `[from, to)` has `from > to`.
    InvalidRange,
    /// The pattern holds no token.
    InvalidPattern,
    /// No candidate start address matches.
    NotFound,
}

/// Every token of `pattern` is the wildcard.
pub open spec fn all_wildcards(pattern: Seq<u8>, wildcard: u8) -> bool {
    forall|i: int| 0 <= i < pattern.len() ==> #[trigger] pattern[i] == wildcard
}

/// The window of `pattern.len()` bytes at `addr` matches: each token is the
/// wildcard or equals the byte under it.
pub open spec fn window_matches(mem: &Memory, pattern: Seq<u8>, wildcard: u8, addr: int) -> bool {
    forall|i: int|
        0 <= i < pattern.len() ==> #[trigger] pattern[i] == wildcard || mem.byte_at(addr + i)
            == pattern[i]
}

/// No start address of `[lo, hi)` matches.
pub open spec fn no_match_in(mem: &Memory, pattern: Seq<u8>, wildcard: u8, lo: int, hi: int) -> bool {
    forall|a: int| lo <= a < hi ==> !#[trigger] window_matches(mem, pattern, wildcard, a)
}

/// `addr` is the lowest start address of `[from, to)` that matches.
pub open spec fn is_first_match(
    mem: &Memory,
    pattern: Seq<u8>,
    wildcard: u8,
    from: int,
    to: int,
    addr: int,
) -> bool {
    &&& from <= addr < to
    &&& window_matches(mem, pattern, wildcard, addr)
    &&& no_match_in(mem, pattern, wildcard, from, addr)
}

/// `found` lists the start addresses of `[from, to)` that match, each once,
/// in ascending order.
pub open spec fn lists_all_matches(
    mem: &Memory,
    pattern: Seq<u8>,
    wildcard: u8,
    from: int,
    to: int,
    found: Seq<usize>,
) -> bool {
    &&& forall|i: int, j: int| 0 <= i < j < found.len() ==> found[i] < found[j]
    &&& forall|i: int|
        0 <= i < found.len() ==> from <= #[trigger] found[i] < to && window_matches(
            mem,
            pattern,
            wildcard,
            found[i] as int,
        )
    &&& forall|a: int|
        from <= a < to && #[trigger] window_matches(mem, pattern, wildcard, a) ==> found.contains(
            a as usize,
        )
}

/// Every window that a scan of `[from, to)` with a pattern of `len` tokens
/// compares lies in the mapped range.
pub open spec fn scan_readable(mem: &Memory, len: int, from: int, to: int) -> bool {
    from < to && len > 0 ==> mem.readable(from, (to - from) + len - 1)
}

/// A pattern made of wildcards only matches at every address.
pub proof fn lemma_wildcards_match_anywhere(mem: &Memory, pattern: Seq<u8>, wildcard: u8, addr: int)
    requires
        all_wildcards(pattern, wildcard),
    ensures
        window_matches(mem, pattern, wildcard, addr),
{
}

/// Compares the window at `addr` with `pattern`, token by token.
fn matches_at(mem: &Memory, pattern: &[u8], wildcard: u8, addr: usize) -> (r: bool)
    requires
        mem.readable(addr as int, pattern@.len() as int),
    ensures
        r == window_matches(mem, pattern@, wildcard, addr as int),
{
    let end = mem.end();
    let mut i: usize = 0;
    while i < pattern.len()
        invariant
            i <= pattern@.len(),
            end == mem.base_addr() + mem.contents().len(),
            mem.readable(addr as int, pattern@.len() as int),
            forall|k: int|
                0 <= k < i ==> #[trigger] pattern@[k] == wildcard || mem.byte_at(addr + k)
                    == pattern@[k],
        decreases pattern@.len() - i,
    {
        if pattern[i] != wildcard && mem.byte(addr + i) != pattern[i] {
            return false;
        }
        i = i + 1;
    }
    true
}

/// Finds the lowest address in `[from, to)` at which `pattern` matches, where
/// a token equal to `wildcard` matches any byte. Candidates are tried in
/// ascending order and every token of the pattern, the last one included, is
/// compared.
pub fn search_first(mem: &Memory, pattern: &[u8], from: usize, to: usize, wildcard: u8) -> (r:
    Result<usize, SearchError>)
    requires
        scan_readable(mem, pattern@.len() as int, from as int, to as int),
    ensures
        from > to ==> r == Err::<usize, SearchError>(SearchError::InvalidRange),
        from <= to && pattern@.len() == 0 ==> r == Err::<usize, SearchError>(
            SearchError::InvalidPattern,
        ),
        from <= to && pattern@.len() > 0 ==> match r {
            Ok(a) => is_first_match(mem, pattern@, wildcard, from as int, to as int, a as int),
            Err(e) => e == SearchError::NotFound && no_match_in(
                mem,
                pattern@,
                wildcard,
                from as int,
                to as int,
            ),
        },
        from < to && pattern@.len() > 0 && all_wildcards(pattern@, wildcard) ==> r == Ok::<
            usize,
            SearchError,
        >(from),
{
    if from > to {
        return Err(SearchError::InvalidRange);
    }
    if pattern.len() == 0 {
        return Err(SearchError::InvalidPattern);
    }
    proof {
        if all_wildcards(pattern@, wildcard) {
            lemma_wildcards_match_anywhere(mem, pattern@, wildcard, from as int);
        }
    }
    let mut position: usize = from;
    while position < to
        invariant
            from <= position <= to,
            pattern@.len() > 0,
                scan_readable(mem, pattern@.len() as int, from as int, to as int),
            no_match_in(mem, pattern@, wildcard, from as int, position as int),
            all_wildcards(pattern@, wildcard) ==> window_matches(
                mem,
                pattern@,
                wildcard,
                from as int,
            ),
        decreases to - position,
    {
        if matches_at(mem, pattern, wildcard, position) {
            return Ok(position);
        }
        position = position + 1;
    }
    Err(SearchError::NotFound)
}

/// Finds every address in `[from, to)` at which `pattern` matches, in
/// ascending order; each hit restarts the search one address past it. A range
/// without a match gives an empty list, not an error.
pub fn search(mem: &Memory, pattern: &[u8], from: usize, to: usize, wildcard: u8) -> (r: Result<
    Vec<usize>,
    SearchError,
>)
    requires
        scan_readable(mem, pattern@.len() as int, from as int, to as int),
    ensures
        from > to ==> r == Err::<Vec<usize>, SearchError>(SearchError::InvalidRange),
        from <= to && pattern@.len() == 0 ==> r == Err::<Vec<usize>, SearchError>(
            SearchError::InvalidPattern,
        ),
        from <= to && pattern@.len() > 0 ==> match r {
            Ok(found) => lists_all_matches(
                mem,
                pattern@,
                wildcard,
                from as int,
                to as int,
                found@,
            ),
            Err(_) => false,
        },
{
    if from > to {
        return Err(SearchError::InvalidRange);
    }
    if pattern.len() == 0 {
        return Err(SearchError::InvalidPattern);
    }
    let mut result: Vec<usize> = Vec::new();
    let mut start: usize = from;
    loop
        invariant
            from <= start <= to,
            pattern@.len() > 0,
                scan_readable(mem, pattern@.len() as int, from as int, to as int),
            lists_all_matches(mem, pattern@, wildcard, from as int, start as int, result@),
        decreases to - start,
    {
        match search_first(mem, pattern, start, to, wildcard) {
            Ok(position) => {
                proof {
                    assert forall|a: int|
                        from <= a < position + 1 && #[trigger] window_matches(
                            mem,
                            pattern@,
                            wildcard,
                            a,
                        ) implies result@.push(position).contains(a as usize) by {
                        if a < start {
                            let k = choose|k: int| 0 <= k < result@.len() && result@[k] == a as usize;
                            assert(result@.push(position)[k] == a as usize);
                        } else {
                            assert(result@.push(position)[result@.len() as int] == a as usize);
                        }
                    }
                }
                result.push(position);
                start = position + 1;
            },
            Err(_) => {
                return Ok(result);
            },
        }
    }
}

/// A pattern whose bytes sit in memory at `at`, inside the scanned range, is
/// matched there: every list of all matches holds `at`, and when no earlier
/// address of the range matches, `at` is the first match.
pub proof fn lemma_planted_pattern_found(
    mem: &Memory,
    pattern: Seq<u8>,
    wildcard: u8,
    from: int,
    to: int,
    at: int,
    found: Seq<usize>,
)
    requires
        from <= at < to,
        mem.readable(at, pattern.len() as int),
        mem.span(at, pattern.len() as int) == pattern,
    ensures
        window_matches(mem, pattern, wildcard, at),
        no_match_in(mem, pattern, wildcard, from, at) ==> is_first_match(
            mem,
            pattern,
            wildcard,
            from,
            to,
            at,
        ),
        lists_all_matches(mem, pattern, wildcard, from, to, found) ==> found.contains(at as usize),
{
    assert forall|i: int| 0 <= i < pattern.len() implies #[trigger] pattern[i] == wildcard
        || mem.byte_at(at + i) == pattern[i] by {
        assert(mem.span(at, pattern.len() as int)[i] == mem.byte_at(at + i));
    }
    if lists_all_matches(mem, pattern, wildcard, from, to, found) {
        assert(window_matches(mem, pattern, wildcard, at));
    }
}

/// Two strictly ascending sequences with the same members are equal.
proof fn lemma_ascending_same_members(a: Seq<usize>, b: Seq<usize>)
    requires
        forall|i: int, j: int| 0 <= i < j < a.len() ==> a[i] < a[j],
        forall|i: int, j: int| 0 <= i < j < b.len() ==> b[i] < b[j],
        forall|x: usize| a.contains(x) <==> b.contains(x),
    ensures
        a == b,
    decreases a.len(),
{
    if a.len() == 0 {
        if b.len() > 0 {
            assert(b.contains(b[0]));
        }
        assert(a =~= b);
    } else if b.len() == 0 {
        assert(a.contains(a[0]));
    } else {
        assert(a.contains(a[0]));
        assert(b.contains(b[0]));
        let ka = choose|k: int| 0 <= k < a.len() && a[k] == b[0];
        let kb = choose|k: int| 0 <= k < b.len() && b[k] == a[0];
        assert(a[0] <= a[ka]);
        assert(b[0] <= b[kb]);
        let ta = a.drop_first();
        let tb = b.drop_first();
        assert forall|x: usize| ta.contains(x) implies tb.contains(x) by {
            let i = choose|i: int| 0 <= i < ta.len() && ta[i] == x;
            assert(a[i + 1] == x);
            assert(a.contains(x));
            let j = choose|j: int| 0 <= j < b.len() && b[j] == x;
            assert(j != 0);
            assert(tb[j - 1] == x);
        }
        assert forall|x: usize| tb.contains(x) implies ta.contains(x) by {
            let i = choose|i: int| 0 <= i < tb.len() && tb[i] == x;
            assert(b[i + 1] == x);
            assert(b.contains(x));
            let j = choose|j: int| 0 <= j < a.len() && a[j] == x;
            assert(j != 0);
            assert(ta[j - 1] == x);
        }
        lemma_ascending_same_members(ta, tb);
        assert(a[0] == b[0]);
        assert forall|i: int| 0 < i < a.len() implies a[i] == b[i] by {
            assert(a[i] == ta[i - 1]);
            assert(b[i] == tb[i - 1]);
        }
        assert(a =~= b);
    }
}

/// The list of all matches is determined by the memory, the pattern and the
/// range: two lists that each hold every match once, in ascending order, are
/// the same list.
pub proof fn lemma_match_list_unique(
    mem: &Memory,
    pattern: Seq<u8>,
    wildcard: u8,
    from: int,
    to: int,
    first: Seq<usize>,
    second: Seq<usize>,
)
    requires
        lists_all_matches(mem, pattern, wildcard, from, to, first),
        lists_all_matches(mem, pattern, wildcard, from, to, second),
    ensures
        first == second,
{
    assert forall|x: usize| first.contains(x) <==> second.contains(x) by {
        if first.contains(x) {
            let i = choose|i: int| 0 <= i < first.len() && first[i] == x;
            assert(window_matches(mem, pattern, wildcard, first[i] as int));
        }
        if second.contains(x) {
            let i = choose|i: int| 0 <= i < second.len() && second[i] == x;
            assert(window_matches(mem, pattern, wildcard, second[i] as int));
        }
    }
    lemma_ascending_same_members(first, second);
}

} // verus!
