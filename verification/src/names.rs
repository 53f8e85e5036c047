//! Qualified remote tool names.
//!
//! A remote tool is addressed as `"<server>___<tool>"`. Joining writes the
//! triple-underscore separator between the two parts; splitting recovers
//! them segment-wise, by scanning for the leftmost separator occurrences.

use vstd::prelude::*;

use vstd::string::StrSliceExecFns;
use vstd::string::StringExecFns;

verus! {

/// The separator between a server name and a tool name.
pub open spec fn sep() -> Seq<char> {
    seq!['_', '_', '_']
}

/// True when the separator occurs in `s` at position `i`.
pub open spec fn sep_at(s: Seq<char>, i: int) -> bool {
    0 <= i && i + 3 <= s.len() && s.subrange(i, i + 3) == sep()
}

/// True when `s` contains the separator anywhere.
pub open spec fn contains_sep(s: Seq<char>) -> bool {
    exists|i: int| sep_at(s, i)
}

/// The position of the leftmost separator occurrence at or after `i`;
/// any result above `s.len() - 3` means there is none.
pub open spec fn find_sep(s: Seq<char>, i: int) -> int
    decreases s.len() - i,
{
    if i + 3 > s.len() {
        s.len() as int
    } else if s.subrange(i, i + 3) == sep() {
        i
    } else {
        find_sep(s, i + 1)
    }
}

/// A qualified name: the server name, the separator, the tool name.
pub open spec fn spec_join(server: Seq<char>, tool: Seq<char>) -> Seq<char> {
    server + sep() + tool
}

/// The first two segments of `s` around its separator occurrences: segment
/// zero and segment one of a segment-wise split. `None` when `s` holds no
/// separator at all.
pub open spec fn spec_split(s: Seq<char>) -> Option<(Seq<char>, Seq<char>)> {
    let i = find_sep(s, 0);
    if i + 3 <= s.len() {
        let j = find_sep(s, i + 3);
        let end = if j + 3 <= s.len() {
            j
        } else {
            s.len() as int
        };
        Some((s.subrange(0, i), s.subrange(i + 3, end)))
    } else {
        None
    }
}

/// Builds the qualified name of a remote tool.
pub fn join_qualified(server: &str, tool: &str) -> (r: String)
    ensures
        r@ == spec_join(server@, tool@),
{
    proof {
        reveal_strlit("___");
        assert("___"@ =~= sep());
    }
    let mut r = server.to_owned();
    r.append("___");
    r.append(tool);
    r
}

/// Recovers the server and tool name from a qualified name; `None` when the
/// name holds no separator.
pub fn split_qualified(q: &str) -> (r: Option<(String, String)>)
    ensures
        r.deep_view() == spec_split(q@),
{
    let n = q.unicode_len();
    let i = match scan_sep(q, 0) {
        Some(i) => i,
        None => {
            return None;
        },
    };
    let server = q.substring_char(0, i).to_owned();
    let end = match scan_sep(q, i + 3) {
        Some(j) => j,
        None => n,
    };
    let tool = q.substring_char(i + 3, end).to_owned();
    Some((server, tool))
}

/// The leftmost separator occurrence at or after `from`, by a linear scan.
fn scan_sep(q: &str, from: usize) -> (r: Option<usize>)
    requires
        from <= q@.len(),
    ensures
        match r {
            Some(i) => find_sep(q@, from as int) == i as int && from <= i && i + 3 <= q@.len(),
            None => find_sep(q@, from as int) + 3 > q@.len(),
        },
{
    let n = q.unicode_len();
    let mut i = from;
    while n - i >= 3
        invariant
            from <= i <= n,
            n == q@.len(),
            find_sep(q@, from as int) == find_sep(q@, i as int),
        decreases n - i,
    {
        let a = q.get_char(i);
        let b = q.get_char(i + 1);
        let c = q.get_char(i + 2);
        if a == '_' && b == '_' && c == '_' {
            proof {
                assert(q@.subrange(i as int, i + 3) =~= sep());
            }
            return Some(i);
        }
        proof {
            assert(q@.subrange(i as int, i + 3) !~= sep()) by {
                assert(q@.subrange(i as int, i + 3)[0] == a);
                assert(q@.subrange(i as int, i + 3)[1] == b);
                assert(q@.subrange(i as int, i + 3)[2] == c);
            }
        }
        i += 1;
    }
    None
}

/// Law: splitting a joined qualified name returns the same pair, for a
/// server and tool name that do not themselves contain the separator and a
/// server name that does not end with an underscore. (A server name with a
/// trailing underscore merges into the separator: the split sees an earlier
/// occurrence, and the round trip does not hold there.)
pub proof fn lemma_split_join(server: Seq<char>, tool: Seq<char>)
    requires
        !contains_sep(server),
        !contains_sep(tool),
        server.len() > 0 ==> server.last() != '_',
    ensures
        spec_split(spec_join(server, tool)) == Some((server, tool)),
{
    let s = spec_join(server, tool);
    let m = server.len() as int;
    assert(s.len() == server.len() + 3 + tool.len());
    assert(s.subrange(m, m + 3) =~= sep());
    lemma_find_sep_in_join(server, tool, 0);
    assert(find_sep(s, 0) == m);
    lemma_no_sep_in_tail(server, tool, m + 3);
    assert(find_sep(s, m + 3) == s.len());
    assert(s.subrange(0, m) =~= server);
    assert(s.subrange(m + 3, s.len() as int) =~= tool);
}

/// In a joined name, the leftmost separator at or after any position inside
/// the server part is exactly at the server's end.
proof fn lemma_find_sep_in_join(server: Seq<char>, tool: Seq<char>, i: int)
    requires
        !contains_sep(server),
        server.len() > 0 ==> server.last() != '_',
        0 <= i <= server.len(),
    ensures
        find_sep(spec_join(server, tool), i) == server.len(),
    decreases server.len() - i,
{
    let s = spec_join(server, tool);
    assert(s.len() == server.len() + 3 + tool.len());
    if i == server.len() {
        assert(s.subrange(i, i + 3) =~= sep());
    } else {
        assert(!sep_at(s, i)) by {
            if i + 3 <= server.len() {
                if s.subrange(i, i + 3) == sep() {
                    assert(server.subrange(i, i + 3) =~= s.subrange(i, i + 3));
                    assert(sep_at(server, i));
                }
            } else {
                // The window crosses the boundary; its last in-server char is
                // the server's last char, which is not an underscore.
                if s.subrange(i, i + 3) == sep() {
                    assert(s.subrange(i, i + 3)[server.len() - 1 - i] == s[server.len() - 1]);
                    assert(s[server.len() - 1] == server.last());
                    assert(sep()[server.len() - 1 - i] == '_');
                }
            }
        }
        assert(s.subrange(i, i + 3) != sep());
        lemma_find_sep_in_join(server, tool, i + 1);
    }
}

/// In a joined name whose tool part is separator-free, there is no separator
/// occurrence at or after the tool's start.
proof fn lemma_no_sep_in_tail(server: Seq<char>, tool: Seq<char>, i: int)
    requires
        !contains_sep(tool),
        server.len() + 3 <= i <= spec_join(server, tool).len(),
    ensures
        find_sep(spec_join(server, tool), i) == spec_join(server, tool).len(),
    decreases spec_join(server, tool).len() - i,
{
    let s = spec_join(server, tool);
    let off = server.len() + 3;
    if i + 3 <= s.len() {
        assert(!sep_at(s, i)) by {
            if s.subrange(i, i + 3) == sep() {
                assert(tool.subrange(i - off, i - off + 3) =~= s.subrange(i, i + 3));
                assert(sep_at(tool, i - off));
            }
        }
        assert(s.subrange(i, i + 3) != sep());
        lemma_no_sep_in_tail(server, tool, i + 1);
    }
}

} // verus!
