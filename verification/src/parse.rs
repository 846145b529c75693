use vstd::prelude::*;
use vstd::string::StrSliceExecFns;
use crate::text::{spec_lines, spec_split_ws, lines_of, split_ws};
use crate::graph::Graph;

verus! {

/// A decimal digit.
pub open spec fn is_digit(c: char) -> bool {
    '0' <= c && c <= '9'
}

/// Every character is a decimal digit.
pub open spec fn all_digits(s: Seq<char>) -> bool {
    forall|i: int| 0 <= i < s.len() ==> is_digit(#[trigger] s[i])
}

/// The value of a digit string read in base ten; 0 for the empty string.
pub open spec fn digits_val(s: Seq<char>) -> int
    decreases s.len(),
{
    if s.len() == 0 {
        0
    } else {
        digits_val(s.drop_last()) * 10 + (s.last() as int - '0' as int)
    }
}

/// The string with one leading plus sign removed.
pub open spec fn strip_plus(s: Seq<char>) -> Seq<char> {
    if s.len() > 0 && s[0] == '+' {
        s.skip(1)
    } else {
        s
    }
}

/// What the standard unsigned parser accepts: after an optional plus
/// sign, at least one character, all digits, with a value that fits.
pub open spec fn parseable(s: Seq<char>) -> bool {
    let t = strip_plus(s);
    t.len() > 0 && all_digits(t) && digits_val(t) <= usize::MAX
}

proof fn lemma_digits_nonneg(s: Seq<char>)
    requires
        all_digits(s),
    ensures
        digits_val(s) >= 0,
    decreases s.len(),
{
    if s.len() > 0 {
        assert(all_digits(s.drop_last())) by {
            assert(forall|i: int| 0 <= i < s.len() - 1 ==> is_digit(#[trigger] s[i]));
        }
        lemma_digits_nonneg(s.drop_last());
    }
}

proof fn lemma_digits_prefix_le(s: Seq<char>, k: int)
    requires
        all_digits(s),
        0 <= k <= s.len(),
    ensures
        digits_val(s.take(k)) <= digits_val(s),
    decreases s.len() - k,
{
    assert(all_digits(s.take(k))) by {
        assert(forall|i: int| 0 <= i < k ==> s.take(k)[i] == #[trigger] s[i]);
    }
    if k < s.len() {
        lemma_digits_prefix_le(s, k + 1);
        assert(s.take(k + 1).drop_last() =~= s.take(k));
        lemma_digits_nonneg(s.take(k));
        assert(digits_val(s.take(k + 1)) == digits_val(s.take(k)) * 10 + (s[k] as int
            - '0' as int));
        assert(digits_val(s.take(k)) * 10 >= digits_val(s.take(k))) by (nonlinear_arith)
            requires
                digits_val(s.take(k)) >= 0,
        ;
    } else {
        assert(s.take(k) =~= s);
    }
}

/// Reads an unsigned number written in base ten, with an optional
/// leading plus sign, exactly as the standard parser does: anything
/// else, the empty string, or a value too large comes back as None.
pub fn parse_usize(s: &str) -> (r: Option<usize>)
    ensures
        r is Some <==> parseable(s@),
        match r {
            Some(v) => v == digits_val(strip_plus(s@)),
            None => true,
        },
{
    let len = s.unicode_len();
    let mut start: usize = 0;
    if len > 0 && s.get_char(0) == '+' {
        start = 1;
    }
    let ghost t = strip_plus(s@);
    proof {
        assert(t =~= s@.skip(start as int));
        assert(t.take(0) =~= Seq::<char>::empty());
    }
    if start >= len {
        return None;
    }
    let mut val: usize = 0;
    let mut i: usize = start;
    while i < len
        invariant
            len == s@.len(),
            t == strip_plus(s@),
            t =~= s@.skip(start as int),
            start <= i <= len,
            t.len() == len - start,
            all_digits(t.take(i - start)),
            val == digits_val(t.take(i - start)),
        decreases len - i,
    {
        let ghost p = i - start;
        let c = s.get_char(i);
        if !(c >= '0' && c <= '9') {
            proof {
                assert(t[p] == s@[i as int]);
                assert(!is_digit(t[p]));
            }
            return None;
        }
        let d = (c as u32 - 48) as usize;
        proof {
            assert(t.take(p + 1).drop_last() =~= t.take(p));
            assert(t.take(p + 1).last() == t[p]);
            assert(t[p] == s@[i as int]);
            assert(d == s@[i as int] as int - '0' as int);
            assert(digits_val(t.take(p + 1)) == val * 10 + d);
        }
        if val > (usize::MAX - d) / 10 {
            proof {
                let q = (usize::MAX - d) as int;
                assert(val * 10 >= (q / 10) * 10 + 10) by (nonlinear_arith)
                    requires
                        val >= q / 10 + 1,
                ;
                assert((q / 10) * 10 + q % 10 == q) by (nonlinear_arith);
                assert(digits_val(t.take(p + 1)) > usize::MAX);
                if parseable(s@) {
                    lemma_digits_prefix_le(t, p + 1);
                }
            }
            return None;
        }
        proof {
            let q = (usize::MAX - d) as int;
            assert((q / 10) * 10 <= q) by (nonlinear_arith);
            assert(val * 10 <= (q / 10) * 10) by (nonlinear_arith)
                requires
                    0 <= val <= q / 10,
            ;
            assert(all_digits(t.take(p + 1))) by {
                assert(forall|j: int|
                    0 <= j < p + 1 ==> t.take(p + 1)[j] == #[trigger] t.take(p + 1)[j]
                        && t.take(p + 1)[j] == t[j]);
                assert(forall|j: int| 0 <= j < p ==> t.take(p)[j] == #[trigger] t[j]);
            }
        }
        val = val * 10 + d;
        i = i + 1;
    }
    proof {
        assert(t.take(len - start) =~= t);
    }
    Some(val)
}

/// The edge a line describes: its first two words as numbers.
pub open spec fn edge_of(l: Seq<char>) -> (int, int) {
    (
        digits_val(strip_plus(spec_split_ws(l)[0])),
        digits_val(strip_plus(spec_split_ws(l)[1])),
    )
}

/// A line that describes an edge: at least two words, both numbers.
pub open spec fn edge_line_ok(l: Seq<char>) -> bool {
    spec_split_ws(l).len() >= 2 && parseable(spec_split_ws(l)[0]) && parseable(
        spec_split_ws(l)[1],
    )
}

/// A well-formed graph text: a first line whose first word gives the
/// vertex count, then one edge per line whose source is a vertex.
pub open spec fn graph_text_ok(s: Seq<char>) -> bool {
    let ls = spec_lines(s);
    &&& ls.len() >= 1
    &&& spec_split_ws(ls[0]).len() >= 1
    &&& parseable(spec_split_ws(ls[0])[0])
    &&& forall|k: int|
        1 <= k < ls.len() ==> edge_line_ok(#[trigger] ls[k]) && edge_of(ls[k]).0 < header_val(s)
}

/// The vertex count a graph text declares.
pub open spec fn header_val(s: Seq<char>) -> int {
    digits_val(strip_plus(spec_split_ws(spec_lines(s)[0])[0]))
}

/// A usize sequence and an int sequence with the same entries.
pub open spec fn adj_eq(a: Seq<usize>, b: Seq<int>) -> bool {
    a.len() == b.len() && forall|j: int| 0 <= j < a.len() ==> a[j] == b[j]
}

/// Every vertex's adjacency list equals what the first n lines dictate.
pub open spec fn adj_matches(adj: Seq<Vec<usize>>, ls: Seq<Seq<char>>, n: int) -> bool {
    forall|i: int| 0 <= i < adj.len() ==> adj_eq((#[trigger] adj[i])@, adj_upto(ls, n, i))
}

/// The adjacency list of vertex i after the first n lines of the text
/// were read: the targets of the edges leaving i, in line order.
pub open spec fn adj_upto(ls: Seq<Seq<char>>, n: int, i: int) -> Seq<int>
    decreases n,
{
    if n <= 1 {
        Seq::empty()
    } else {
        let prev = adj_upto(ls, n - 1, i);
        if edge_of(ls[n - 1]).0 == i {
            prev.push(edge_of(ls[n - 1]).1)
        } else {
            prev
        }
    }
}

/// Builds the graph a text describes: the first line's first word is the
/// vertex count, every further line adds the edge its first two words
/// name. A text that does not have this form, or an edge leaving a
/// vertex that does not exist, comes back as None.
pub fn graph_from_text(text: &str) -> (r: Option<Graph>)
    ensures
        r is Some <==> graph_text_ok(text@),
        match r {
            Some(g) => {
                &&& g.vertices == header_val(text@)
                &&& g.adjacency_list@.len() == g.vertices
                &&& adj_matches(
                    g.adjacency_list@,
                    spec_lines(text@),
                    spec_lines(text@).len() as int,
                )
            },
            None => true,
        },
{
    let lines = lines_of(text);
    let ghost ls = spec_lines(text@);
    if lines.len() == 0 {
        return None;
    }
    let words = split_ws(lines[0].as_str());
    if words.len() == 0 {
        return None;
    }
    let vertices = match parse_usize(words[0].as_str()) {
        Some(v) => v,
        None => {
            return None;
        },
    };
    let mut g = Graph::new(vertices);
    let mut li: usize = 1;
    while li < lines.len()
        invariant
            ls == spec_lines(text@),
            lines@.len() == ls.len(),
            forall|k: int| 0 <= k < ls.len() ==> lines@[k]@ == ls[k],
            ls.len() >= 1,
            spec_split_ws(ls[0]).len() >= 1,
            parseable(spec_split_ws(ls[0])[0]),
            vertices == header_val(text@),
            1 <= li <= ls.len(),
            forall|k: int| 1 <= k < li ==> edge_line_ok(#[trigger] ls[k]) && edge_of(ls[k]).0
                < vertices,
            g.vertices == vertices,
            g.adjacency_list@.len() == vertices,
            adj_matches(g.adjacency_list@, ls, li as int),
        decreases lines@.len() - li,
    {
        let w = split_ws(lines[li].as_str());
        proof {
            assert(lines@[li as int]@ == ls[li as int]);
            if graph_text_ok(text@) {
                assert(edge_line_ok(ls[li as int]) && edge_of(ls[li as int]).0 < header_val(
                    text@,
                ));
            }
        }
        if w.len() < 2 {
            return None;
        }
        let from = match parse_usize(w[0].as_str()) {
            Some(v) => v,
            None => {
                return None;
            },
        };
        let to = match parse_usize(w[1].as_str()) {
            Some(v) => v,
            None => {
                return None;
            },
        };
        if from >= vertices {
            return None;
        }
        g.add_edge(from, to);
        li = li + 1;
    }
    Some(g)
}

} // verus!
