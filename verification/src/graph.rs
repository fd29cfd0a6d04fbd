use vstd::prelude::*;
use vstd::pervasive::VecAdditionalExecFns;
use crate::error::Error;

verus! {

/// The byte that separates tokens on a line.
pub const SPACE: u8 = 32;

/// The byte that stands in for a missing line or token, the digit zero.
pub const ZERO: u8 = 48;

/// Index of the last separator byte of `s`, or `-1` when `s` holds none.
pub open spec fn last_space(s: Seq<u8>) -> int
    decreases s.len(),
{
    if s.len() == 0 {
        -1
    } else if s.last() == SPACE {
        s.len() - 1
    } else {
        last_space(s.drop_last())
    }
}

/// The tokens of `s`: the maximal runs between separator bytes, kept in
/// order, empty runs included, so that joining the tokens with single
/// separators restores `s`. A line always yields at least one token.
pub open spec fn spec_split(s: Seq<u8>) -> Seq<Seq<u8>>
    decreases s.len(),
{
    let i = last_space(s);
    if 0 <= i < s.len() {
        spec_split(s.take(i)).push(s.skip(i + 1))
    } else {
        seq![s]
    }
}

/// Whether `b` is a decimal digit.
pub open spec fn is_digit(b: u8) -> bool {
    48 <= b <= 57
}

/// Whether `t` is a nonempty run of decimal digits.
pub open spec fn is_num(t: Seq<u8>) -> bool {
    t.len() > 0 && forall|i: int| 0 <= i < t.len() ==> is_digit(t[i])
}

/// The number the digit run `t` denotes, most significant digit first.
pub open spec fn num_val(t: Seq<u8>) -> int
    decreases t.len(),
{
    if t.len() == 0 {
        0
    } else {
        num_val(t.drop_last()) * 10 + t.last() - 48
    }
}

proof fn lemma_last_space_bounds(s: Seq<u8>)
    ensures
        -1 <= last_space(s) < s.len(),
        last_space(s) >= 0 ==> s[last_space(s)] == SPACE,
    decreases s.len(),
{
    if s.len() > 0 && s.last() != SPACE {
        lemma_last_space_bounds(s.drop_last());
    }
}

proof fn lemma_split_len(s: Seq<u8>)
    ensures
        spec_split(s).len() >= 1,
    decreases s.len(),
{
    lemma_last_space_bounds(s);
}

/// Appending a separator appends one empty token.
proof fn lemma_split_push_space(s: Seq<u8>)
    ensures
        spec_split(s.push(SPACE)) == spec_split(s).push(Seq::<u8>::empty()),
{
    let t = s.push(SPACE);
    assert(t.last() == SPACE);
    assert(last_space(t) == s.len());
    assert(t.take(s.len() as int) =~= s);
    assert(t.skip(s.len() as int + 1) =~= Seq::<u8>::empty());
    assert(spec_split(t) =~~= spec_split(s).push(Seq::<u8>::empty()));
}

/// Appending any other byte extends the last token by that byte.
proof fn lemma_split_push_char(s: Seq<u8>, c: u8)
    requires
        c != SPACE,
    ensures
        spec_split(s.push(c)) == spec_split(s).drop_last().push(spec_split(s).last().push(c)),
{
    let t = s.push(c);
    assert(t.drop_last() =~= s);
    assert(last_space(t) == last_space(s));
    lemma_last_space_bounds(s);
    let i = last_space(s);
    if 0 <= i {
        assert(t.take(i) =~= s.take(i));
        assert(t.skip(i + 1) =~= s.skip(i + 1).push(c));
        assert(spec_split(t) =~~= spec_split(s).drop_last().push(spec_split(s).last().push(c)));
    } else {
        assert(spec_split(t) =~~= seq![t]);
        assert(spec_split(s) =~~= seq![s]);
        assert(spec_split(t) =~~= spec_split(s).drop_last().push(spec_split(s).last().push(c)));
    }
}

/// Splits `line` at its separator bytes, exactly as `spec_split` describes.
fn split_spaces(line: &Vec<u8>) -> (r: Vec<Vec<u8>>)
    ensures
        r@.map_values(|t: Vec<u8>| t@) == spec_split(line@),
        r@.len() >= 1,
{
    let mut toks: Vec<Vec<u8>> = Vec::new();
    let mut cur: Vec<u8> = Vec::new();
    let mut i: usize = 0;
    proof {
        assert(line@.take(0) =~= Seq::<u8>::empty());
        assert(toks@.map_values(|t: Vec<u8>| t@).push(cur@) =~~= spec_split(line@.take(0)));
    }
    while i < line.len()
        invariant
            i <= line@.len(),
            toks@.map_values(|t: Vec<u8>| t@).push(cur@) == spec_split(line@.take(i as int)),
        decreases line@.len() - i,
    {
        let ghost pre = line@.take(i as int);
        let b = line[i];
        proof {
            assert(line@.take(i + 1) =~= pre.push(b));
        }
        if b == SPACE {
            toks.push(cur);
            cur = Vec::new();
            proof {
                lemma_split_push_space(pre);
                assert(toks@.map_values(|t: Vec<u8>| t@).push(cur@) =~~= spec_split(
                    line@.take(i + 1),
                ));
            }
        } else {
            cur.push(b);
            proof {
                lemma_split_push_char(pre, b);
                let m = toks@.map_values(|t: Vec<u8>| t@);
                assert(spec_split(pre).drop_last() =~~= m);
                assert(toks@.map_values(|t: Vec<u8>| t@).push(cur@) =~~= spec_split(
                    line@.take(i + 1),
                ));
            }
        }
        i += 1;
    }
    proof {
        assert(line@.take(line@.len() as int) =~= line@);
    }
    toks.push(cur);
    proof {
        lemma_split_len(line@);
        assert(toks@.map_values(|t: Vec<u8>| t@) =~~= spec_split(line@));
    }
    toks
}

/// Digit runs denote nonnegative numbers.
proof fn lemma_num_val_nonneg(t: Seq<u8>)
    requires
        forall|i: int| 0 <= i < t.len() ==> is_digit(t[i]),
    ensures
        num_val(t) >= 0,
    decreases t.len(),
{
    if t.len() > 0 {
        lemma_num_val_nonneg(t.drop_last());
    }
}

/// A digit run denotes at least as much as any of its prefixes.
proof fn lemma_num_val_prefix(t: Seq<u8>, j: int)
    requires
        forall|i: int| 0 <= i < t.len() ==> is_digit(t[i]),
        0 <= j <= t.len(),
    ensures
        num_val(t.take(j)) <= num_val(t),
    decreases t.len() - j,
{
    if j == t.len() {
        assert(t.take(j) =~= t);
    } else {
        lemma_num_val_prefix(t, j + 1);
        let u = t.take(j + 1);
        assert(u.drop_last() =~= t.take(j));
        lemma_num_val_nonneg(t.take(j));
        assert(num_val(t.take(j)) <= num_val(u));
    }
}

/// Reads `tok` as a decimal number. Succeeds exactly on a nonempty digit
/// run whose value fits a `usize`; anything else is a `ConvertError`.
fn parse_usize(tok: &Vec<u8>) -> (r: Result<usize, Error>)
    ensures
        r is Ok <==> is_num(tok@) && num_val(tok@) <= usize::MAX,
        r matches Ok(v) ==> v == num_val(tok@),
        r is Err ==> r == Err::<usize, Error>(Error::ConvertError),
{
    if tok.len() == 0 {
        return Err(Error::ConvertError);
    }
    let mut acc: usize = 0;
    let mut i: usize = 0;
    proof {
        assert(tok@.take(0) =~= Seq::<u8>::empty());
    }
    while i < tok.len()
        invariant
            i <= tok@.len(),
            tok@.len() > 0,
            forall|j: int| 0 <= j < i ==> is_digit(tok@[j]),
            acc == num_val(tok@.take(i as int)),
        decreases tok@.len() - i,
    {
        let b = tok[i];
        if b < 48 || b > 57 {
            return Err(Error::ConvertError);
        }
        let d: usize = (b - 48) as usize;
        proof {
            assert(tok@.take(i + 1).drop_last() =~= tok@.take(i as int));
            assert(num_val(tok@.take(i + 1)) == acc * 10 + d);
        }
        let acc10 = match acc.checked_mul(10) {
            Some(x) => x,
            None => {
                proof {
                    if is_num(tok@) {
                        lemma_num_val_prefix(tok@, i + 1);
                    }
                }
                return Err(Error::ConvertError);
            },
        };
        acc = match acc10.checked_add(d) {
            Some(x) => x,
            None => {
                proof {
                    if is_num(tok@) {
                        lemma_num_val_prefix(tok@, i + 1);
                    }
                }
                return Err(Error::ConvertError);
            },
        };
        i += 1;
    }
    proof {
        assert(tok@.take(tok@.len() as int) =~= tok@);
    }
    Ok(acc)
}

/// Line `k` of the input, where a missing line is read as the single digit
/// zero.
pub open spec fn line_at(ls: Seq<Seq<u8>>, k: int) -> Seq<u8> {
    if 0 <= k < ls.len() {
        ls[k]
    } else {
        seq![ZERO]
    }
}

/// Token `j` of the token list `ts`, where a missing token is read as the
/// single digit zero.
pub open spec fn tok_at(ts: Seq<Seq<u8>>, j: int) -> Seq<u8> {
    if 0 <= j < ts.len() {
        ts[j]
    } else {
        seq![ZERO]
    }
}

/// Token `j` of the header line.
pub open spec fn header_tok(ls: Seq<Seq<u8>>, j: int) -> Seq<u8> {
    tok_at(spec_split(line_at(ls, 0)), j)
}

/// The vertex count the header denotes.
pub open spec fn spec_vertex(ls: Seq<Seq<u8>>) -> int {
    num_val(header_tok(ls, 0))
}

/// The edge count the header denotes.
pub open spec fn spec_edge(ls: Seq<Seq<u8>>) -> int {
    num_val(header_tok(ls, 1))
}

/// Whether both header tokens are digit runs whose values fit a `usize`.
pub open spec fn header_ok(ls: Seq<Seq<u8>>) -> bool {
    &&& is_num(header_tok(ls, 0)) && num_val(header_tok(ls, 0)) <= usize::MAX
    &&& is_num(header_tok(ls, 1)) && num_val(header_tok(ls, 1)) <= usize::MAX
}

/// The tokens of the line describing edge `i`.
pub open spec fn edge_toks(ls: Seq<Seq<u8>>, i: int) -> Seq<Seq<u8>> {
    spec_split(line_at(ls, 1 + i))
}

/// First endpoint named by the line of edge `i`.
pub open spec fn pair_a(ls: Seq<Seq<u8>>, i: int) -> int {
    num_val(edge_toks(ls, i)[0])
}

/// Second endpoint named by the line of edge `i`.
pub open spec fn pair_b(ls: Seq<Seq<u8>>, i: int) -> int {
    num_val(edge_toks(ls, i)[1])
}

/// Whether the line of edge `h` names the unordered pair `{x, y}`.
pub open spec fn pair_matches(ls: Seq<Seq<u8>>, h: int, x: int, y: int) -> bool {
    ||| pair_a(ls, h) == x && pair_b(ls, h) == y
    ||| pair_a(ls, h) == y && pair_b(ls, h) == x
}

/// Whether the line of edge `i` is acceptable for a graph on `v` vertices:
/// it names two in-range endpoints as digit runs, they differ (no self
/// loop), and no earlier line named the same unordered pair (no parallel
/// edge).
pub open spec fn edge_pair_ok(ls: Seq<Seq<u8>>, v: int, i: int) -> bool {
    let ts = edge_toks(ls, i);
    &&& is_num(ts[0]) && num_val(ts[0]) <= usize::MAX
    &&& pair_a(ls, i) <= v
    &&& ts.len() >= 2
    &&& is_num(ts[1]) && num_val(ts[1]) <= usize::MAX
    &&& pair_b(ls, i) <= v
    &&& pair_a(ls, i) != pair_b(ls, i)
    &&& pair_a(ls, i) < v && pair_b(ls, i) < v
    &&& forall|h: int| 0 <= h < i ==> !pair_matches(ls, h, pair_a(ls, i), pair_b(ls, i))
}

/// Whether the whole input describes a graph: a readable header and one
/// acceptable line for each of the `spec_edge` edges it announces.
pub open spec fn lines_ok(ls: Seq<Seq<u8>>) -> bool {
    &&& header_ok(ls)
    &&& forall|i: int| 0 <= i < spec_edge(ls) ==> edge_pair_ok(ls, spec_vertex(ls), i)
}

/// The views of the input lines.
pub open spec fn views(lines: Seq<Vec<u8>>) -> Seq<Seq<u8>> {
    lines.map_values(|l: Vec<u8>| l@)
}

/// The failure the line of edge `i` draws, in the order the checks are
/// made: an unreadable first endpoint, one past the vertex count, a missing
/// second endpoint, the same for the second endpoint, a self loop, an
/// endpoint without a row, and last a repeated pair.
pub open spec fn line_error(ls: Seq<Seq<u8>>, v: int, i: int) -> Error {
    let ts = edge_toks(ls, i);
    if !(is_num(ts[0]) && num_val(ts[0]) <= usize::MAX) {
        Error::ConvertError
    } else if num_val(ts[0]) > v {
        Error::IndexOfBounds
    } else if ts.len() < 2 {
        Error::IndexOfBounds
    } else if !(is_num(ts[1]) && num_val(ts[1]) <= usize::MAX) {
        Error::ConvertError
    } else if num_val(ts[1]) > v {
        Error::IndexOfBounds
    } else if num_val(ts[0]) == num_val(ts[1]) {
        Error::SelfLoop
    } else if num_val(ts[0]) >= v || num_val(ts[1]) >= v {
        Error::IndexOfBounds
    } else {
        Error::ParallelEdges
    }
}

/// Index of the first unacceptable edge line at or after `i`, or `e` when
/// every line from `i` on is acceptable.
pub open spec fn first_bad_from(ls: Seq<Seq<u8>>, v: int, e: int, i: int) -> int
    decreases e - i,
{
    if i < e {
        if !edge_pair_ok(ls, v, i) {
            i
        } else {
            first_bad_from(ls, v, e, i + 1)
        }
    } else {
        e
    }
}

/// While every line before `j` is acceptable, the search for the first
/// unacceptable line may as well start at `j`.
proof fn lemma_first_bad_prefix(ls: Seq<Seq<u8>>, v: int, e: int, j: int)
    requires
        0 <= j <= e,
        forall|h: int| 0 <= h < j ==> edge_pair_ok(ls, v, h),
    ensures
        first_bad_from(ls, v, e, 0) == first_bad_from(ls, v, e, j),
    decreases j,
{
    if j > 0 {
        lemma_first_bad_prefix(ls, v, e, j - 1);
    }
}

/// Rejects a vertex name above the vertex count; the lower bound needs no
/// check on an unsigned index.
pub fn validate_vertex(vert: usize, a: usize) -> (r: Result<(), Error>)
    ensures
        a <= vert ==> r is Ok,
        a > vert ==> r == Err::<(), Error>(Error::IndexOfBounds),
{
    if a > vert {
        return Err(Error::IndexOfBounds);
    }
    Ok(())
}

/// An undirected graph: how many vertices and edges it has, which vertices
/// an edge connects, and each vertex's neighbourhood.
pub trait Graph {
    /// Structural soundness of the representation.
    spec fn wf(&self) -> bool;

    /// Number of vertices.
    spec fn vertex_count(&self) -> int;

    /// Number of edges the graph was built with.
    spec fn edge_count(&self) -> int;

    /// Whether an edge connects `x` and `y`.
    spec fn adjacent(&self, x: int, y: int) -> bool;

    /// Number of neighbours of vertex `v`.
    spec fn spec_degree(&self, v: int) -> int;

    /// Number of edges.
    fn edge(&self) -> (e: usize)
        requires
            self.wf(),
        ensures
            e == self.edge_count(),
    ;

    /// Number of vertices.
    fn vertex(&self) -> (v: usize)
        requires
            self.wf(),
        ensures
            v == self.vertex_count(),
    ;

    /// Whether an edge connects `vertex` and `edge`.
    fn has_edge(&self, vertex: usize, edge: usize) -> (r: bool)
        requires
            self.wf(),
            vertex < self.vertex_count(),
            edge < self.vertex_count(),
        ensures
            r == self.adjacent(vertex as int, edge as int),
    ;

    /// The neighbours of `vertex`: each listed vertex is adjacent, every
    /// adjacent vertex is listed, none is listed twice.
    fn adj(&self, vertex: usize) -> (r: Vec<usize>)
        requires
            self.wf(),
            vertex < self.vertex_count(),
        ensures
            forall|k: int| 0 <= k < r@.len() ==> self.adjacent(vertex as int, #[trigger] r@[k] as int),
            forall|w: usize|
                w < self.vertex_count() && self.adjacent(vertex as int, w as int) ==> r@.contains(w),
            r@.no_duplicates(),
            r@.len() == self.spec_degree(vertex as int),
    ;

    /// Number of neighbours of `v`.
    fn degree(&self, v: usize) -> (r: usize)
        requires
            self.wf(),
            v < self.vertex_count(),
        ensures
            r == self.spec_degree(v as int),
    ;
}

/// How many entries of `row` hold a one.
pub open spec fn count_ones(row: Seq<usize>) -> int
    decreases row.len(),
{
    if row.len() == 0 {
        0
    } else {
        count_ones(row.drop_last()) + (if row.last() == 1 {
            1int
        } else {
            0int
        })
    }
}

/// Reads entry `(x, y)` of a rectangular table.
fn mat_get(m: &Vec<Vec<usize>>, x: usize, y: usize) -> (r: usize)
    requires
        x < m@.len(),
        y < m@[x as int]@.len(),
    ensures
        r == m@[x as int]@[y as int],
{
    let row: &Vec<usize> = &m[x];
    row[y]
}

/// Overwrites entry `(x, y)` of a rectangular table.
fn mat_set(m: &mut Vec<Vec<usize>>, x: usize, y: usize, val: usize)
    requires
        x < old(m)@.len(),
        y < old(m)@[x as int]@.len(),
    ensures
        final(m)@.len() == old(m)@.len(),
        forall|k: int| 0 <= k < old(m)@.len() && k != x ==> final(m)@[k] == old(m)@[k],
        final(m)@[x as int]@ == old(m)@[x as int]@.update(y as int, val),
{
    let row: &mut Vec<usize> = &mut m[x];
    row.set(y, val);
}

/// An undirected graph stored as a square 0/1 matrix: entry `(x, y)` is one
/// exactly when an edge connects `x` and `y`.
pub struct AdjacencyMatrix {
    vertex: usize,
    edge: usize,
    matrix: Vec<Vec<usize>>,
}

impl Graph for AdjacencyMatrix {
    closed spec fn wf(&self) -> bool {
        &&& self.matrix@.len() == self.vertex
        &&& forall|x: int|
            0 <= x < self.vertex ==> (#[trigger] self.matrix@[x])@.len() == self.vertex
        &&& forall|x: int, y: int|
            0 <= x < self.vertex && 0 <= y < self.vertex ==> (self.matrix@[x]@[y] == 0
                || self.matrix@[x]@[y] == 1)
    }

    closed spec fn vertex_count(&self) -> int {
        self.vertex as int
    }

    closed spec fn edge_count(&self) -> int {
        self.edge as int
    }

    closed spec fn adjacent(&self, x: int, y: int) -> bool {
        &&& 0 <= x < self.vertex
        &&& 0 <= y < self.vertex
        &&& self.matrix@[x]@[y] == 1
    }

    closed spec fn spec_degree(&self, v: int) -> int {
        count_ones(self.matrix@[v]@)
    }

    fn edge(&self) -> (e: usize) {
        self.edge
    }

    fn vertex(&self) -> (v: usize) {
        self.vertex
    }

    fn has_edge(&self, vertex: usize, edge: usize) -> (r: bool) {
        mat_get(&self.matrix, vertex, edge) == 1
    }

    fn adj(&self, vertex: usize) -> (r: Vec<usize>) {
        let mut out: Vec<usize> = Vec::new();
        let n: usize = self.vertex;
        let mut w: usize = 0;
        proof {
            assert(self.matrix@[vertex as int]@.take(0) =~= Seq::<usize>::empty());
        }
        while w < n
            invariant
                w <= n,
                n == self.vertex,
                vertex < n,
                self.wf(),
                out@.len() == count_ones(self.matrix@[vertex as int]@.take(w as int)),
                forall|k: int|
                    0 <= k < out@.len() ==> self.adjacent(vertex as int, #[trigger] out@[k] as int),
                forall|k1: int, k2: int| 0 <= k1 < k2 < out@.len() ==> out@[k1] < out@[k2],
                forall|k: int| 0 <= k < out@.len() ==> out@[k] < w,
                forall|ww: usize|
                    ww < w && self.adjacent(vertex as int, ww as int) ==> out@.contains(ww),
            decreases n - w,
        {
            let ghost row = self.matrix@[vertex as int]@;
            proof {
                assert(row.take(w + 1).drop_last() =~= row.take(w as int));
            }
            if mat_get(&self.matrix, vertex, w) == 1 {
                let ghost out0 = out@;
                out.push(w);
                proof {
                    assert(forall|ww: usize|
                        out0.contains(ww) ==> #[trigger] out@.contains(ww)) by {
                        assert(forall|ww: usize| out0.contains(ww) ==> {
                            let k = choose|k: int| 0 <= k < out0.len() && out0[k] == ww;
                            out@[k] == ww && #[trigger] out@.contains(ww)
                        });
                    }
                    assert(out@.contains(w)) by {
                        assert(out@[out@.len() - 1] == w);
                    }
                }
            }
            w += 1;
        }
        proof {
            assert(self.matrix@[vertex as int]@.take(n as int) =~= self.matrix@[vertex as int]@);
        }
        out
    }

    fn degree(&self, v: usize) -> (r: usize) {
        let neighbours = self.adj(v);
        neighbours.len()
    }
}

/// Table state while edges are loaded: entry `(x, y)` is one exactly when
/// one of the first `i` edge lines named the pair `{x, y}`.
spec fn mat_loaded(m: Seq<Vec<usize>>, ls: Seq<Seq<u8>>, v: int, i: int) -> bool {
    &&& m.len() == v
    &&& forall|x: int| 0 <= x < v ==> (#[trigger] m[x])@.len() == v
    &&& forall|x: int, y: int|
        0 <= x < v && 0 <= y < v ==> (m[x]@[y] == 0 || m[x]@[y] == 1)
    &&& forall|x: int, y: int|
        0 <= x < v && 0 <= y < v ==> ((m[x]@[y] == 1) <==> exists|h: int|
            0 <= h < i && pair_matches(ls, h, x, y))
}

impl AdjacencyMatrix {
    /// Loads a graph from its lines: a header naming the vertex and edge
    /// counts, then one line per edge naming its two endpoints. Succeeds
    /// exactly when `lines_ok` accepts the input; the loaded graph then has
    /// the announced counts and connects exactly the named pairs.
    pub fn from_lines(lines: &Vec<Vec<u8>>) -> (r: Result<AdjacencyMatrix, Error>)
        ensures
            r is Ok <==> lines_ok(views(lines@)),
            r matches Ok(g) ==> {
                let ls = views(lines@);
                &&& g.wf()
                &&& g.vertex_count() == spec_vertex(ls)
                &&& g.edge_count() == spec_edge(ls)
                &&& forall|x: int, y: int|
                    g.adjacent(x, y) <==> exists|h: int|
                        0 <= h < spec_edge(ls) && 0 <= x < spec_vertex(ls) && 0 <= y
                            < spec_vertex(ls) && pair_matches(ls, h, x, y)
            },
            r matches Err(e) ==> {
                let ls = views(lines@);
                if !header_ok(ls) {
                    e == Error::ConvertError
                } else {
                    e == line_error(
                        ls,
                        spec_vertex(ls),
                        first_bad_from(ls, spec_vertex(ls), spec_edge(ls), 0),
                    )
                }
            },
    {
        let ghost ls = views(lines@);
        let (vertex, edge) = match read_header(lines) {
            Ok(p) => p,
            Err(e) => {
                return Err(e);
            },
        };
        let mut matrix: Vec<Vec<usize>> = Vec::new();
        let mut x: usize = 0;
        while x < vertex
            invariant
                x <= vertex,
                matrix@.len() == x,
                forall|k: int| 0 <= k < x ==> (#[trigger] matrix@[k])@.len() == vertex,
                forall|k: int, y: int|
                    0 <= k < x && 0 <= y < vertex ==> matrix@[k]@[y] == 0,
            decreases vertex - x,
        {
            let mut row: Vec<usize> = Vec::new();
            let mut y: usize = 0;
            while y < vertex
                invariant
                    y <= vertex,
                    row@.len() == y,
                    forall|k: int| 0 <= k < y ==> row@[k] == 0,
                decreases vertex - y,
            {
                row.push(0);
                y += 1;
            }
            matrix.push(row);
            x += 1;
        }
        let mut i: usize = 0;
        proof {
            assert(mat_loaded(matrix@, ls, vertex as int, 0));
        }
        while i < edge
            invariant
                i <= edge,
                ls == views(lines@),
                header_ok(ls),
                vertex == spec_vertex(ls),
                edge == spec_edge(ls),
                mat_loaded(matrix@, ls, vertex as int, i as int),
                forall|h: int| 0 <= h < i ==> edge_pair_ok(ls, vertex as int, h),
            decreases edge - i,
        {
            let (a, b) = match read_edge_pair(lines, i, vertex, Ghost(ls)) {
                Ok(p) => p,
                Err(e) => {
                    proof {
                        lemma_first_bad_prefix(ls, spec_vertex(ls), spec_edge(ls), i as int);
                    }
                    return Err(e);
                },
            };
            if mat_get(&matrix, a, b) == 1 || mat_get(&matrix, b, a) == 1 {
                proof {
                    let h = if matrix@[a as int]@[b as int] == 1 {
                        choose|h: int| 0 <= h < i && pair_matches(ls, h, a as int, b as int)
                    } else {
                        choose|h: int| 0 <= h < i && pair_matches(ls, h, b as int, a as int)
                    };
                    assert(pair_matches(ls, h, pair_a(ls, i as int), pair_b(ls, i as int)));
                    assert(!edge_pair_ok(ls, vertex as int, i as int));
                    lemma_first_bad_prefix(ls, spec_vertex(ls), spec_edge(ls), i as int);
                }
                return Err(Error::ParallelEdges);
            }
            let ghost m0 = matrix@;
            mat_set(&mut matrix, a, b, 1);
            mat_set(&mut matrix, b, a, 1);
            proof {
                assert forall|x0: int, y0: int|
                    0 <= x0 < vertex && 0 <= y0 < vertex implies ((matrix@[x0]@[y0] == 1)
                    <==> exists|h: int| 0 <= h < i + 1 && pair_matches(ls, h, x0, y0)) by {
                    if (x0 == a && y0 == b) || (x0 == b && y0 == a) {
                        assert(pair_matches(ls, i as int, x0, y0));
                    } else {
                        assert(matrix@[x0]@[y0] == m0[x0]@[y0]);
                        assert(!pair_matches(ls, i as int, x0, y0));
                    }
                }
                assert(mat_loaded(matrix@, ls, vertex as int, i as int + 1));
                assert(edge_pair_ok(ls, vertex as int, i as int));
            }
            i += 1;
        }
        let g = AdjacencyMatrix { vertex, edge, matrix };
        proof {
            assert(lines_ok(ls));
        }
        Ok(g)
    }
}

/// Whether `row` holds `b`.
fn row_contains(m: &Vec<Vec<usize>>, x: usize, b: usize) -> (r: bool)
    requires
        x < m@.len(),
    ensures
        r == m@[x as int]@.contains(b),
{
    let row: &Vec<usize> = &m[x];
    let n: usize = row.len();
    let mut k: usize = 0;
    while k < n
        invariant
            k <= n,
            n == row@.len(),
            row@ == m@[x as int]@,
            forall|j: int| 0 <= j < k ==> row@[j] != b,
        decreases n - k,
    {
        if row[k] == b {
            proof {
                assert(m@[x as int]@.contains(b)) by {
                    assert(m@[x as int]@[k as int] == b);
                }
            }
            return true;
        }
        k += 1;
    }
    false
}

/// Appends `val` to row `x` of a table of rows.
fn row_push(m: &mut Vec<Vec<usize>>, x: usize, val: usize)
    requires
        x < old(m)@.len(),
        old(m)@[x as int]@.len() < usize::MAX,
    ensures
        final(m)@.len() == old(m)@.len(),
        forall|k: int| 0 <= k < old(m)@.len() && k != x ==> final(m)@[k] == old(m)@[k],
        final(m)@[x as int]@ == old(m)@[x as int]@.push(val),
{
    let row: &mut Vec<usize> = &mut m[x];
    row.push(val);
}

/// An undirected graph stored as one neighbour row per vertex: row `x`
/// holds `y` exactly when an edge connects `x` and `y`.
pub struct AdjacencyList {
    vertex: usize,
    edge: usize,
    list: Vec<Vec<usize>>,
}

impl Graph for AdjacencyList {
    closed spec fn wf(&self) -> bool {
        &&& self.list@.len() == self.vertex
        &&& forall|x: int|
            0 <= x < self.vertex ==> (#[trigger] self.list@[x])@.no_duplicates()
        &&& forall|x: int, k: int|
            0 <= x < self.vertex && 0 <= k < self.list@[x]@.len() ==> self.list@[x]@[k]
                < self.vertex
    }

    closed spec fn vertex_count(&self) -> int {
        self.vertex as int
    }

    closed spec fn edge_count(&self) -> int {
        self.edge as int
    }

    closed spec fn adjacent(&self, x: int, y: int) -> bool {
        &&& 0 <= x < self.vertex
        &&& 0 <= y < self.vertex
        &&& self.list@[x]@.contains(y as usize)
    }

    closed spec fn spec_degree(&self, v: int) -> int {
        self.list@[v]@.len() as int
    }

    fn edge(&self) -> (e: usize) {
        self.edge
    }

    fn vertex(&self) -> (v: usize) {
        self.vertex
    }

    fn has_edge(&self, vertex: usize, edge: usize) -> (r: bool) {
        row_contains(&self.list, vertex, edge)
    }

    fn adj(&self, vertex: usize) -> (r: Vec<usize>) {
        let row: &Vec<usize> = &self.list[vertex];
        let n: usize = row.len();
        let mut out: Vec<usize> = Vec::new();
        let mut k: usize = 0;
        while k < n
            invariant
                k <= n,
                n == row@.len(),
                row@ == self.list@[vertex as int]@,
                out@ == row@.take(k as int),
            decreases n - k,
        {
            out.push(row[k]);
            proof {
                assert(out@ =~= row@.take(k + 1));
            }
            k += 1;
        }
        proof {
            assert(out@ =~= self.list@[vertex as int]@);
            assert forall|kk: int| 0 <= kk < out@.len() implies self.adjacent(
                vertex as int,
                #[trigger] out@[kk] as int,
            ) by {
                assert(self.list@[vertex as int]@.contains(out@[kk]));
            }
        }
        out
    }

    fn degree(&self, v: usize) -> (r: usize) {
        let neighbours = self.adj(v);
        neighbours.len()
    }
}

/// Row state while edges are loaded: row `x` holds `y` exactly when one of
/// the first `i` edge lines named the pair `{x, y}`.
spec fn list_loaded(m: Seq<Vec<usize>>, ls: Seq<Seq<u8>>, v: int, i: int) -> bool {
    &&& m.len() == v
    &&& forall|x: int| 0 <= x < v ==> (#[trigger] m[x])@.no_duplicates()
    &&& forall|x: int, k: int|
        0 <= x < v && 0 <= k < m[x]@.len() ==> m[x]@[k] < v
    &&& forall|x: int, y: usize|
        0 <= x < v && y < v ==> ((#[trigger] m[x]@.contains(y)) <==> exists|h: int|
            0 <= h < i && pair_matches(ls, h, x, y as int))
}

impl AdjacencyList {
    /// Loads a graph from its lines: a header naming the vertex and edge
    /// counts, then one line per edge naming its two endpoints. Succeeds
    /// exactly when `lines_ok` accepts the input; the loaded graph then has
    /// the announced counts and connects exactly the named pairs.
    pub fn from_lines(lines: &Vec<Vec<u8>>) -> (r: Result<AdjacencyList, Error>)
        ensures
            r is Ok <==> lines_ok(views(lines@)),
            r matches Ok(g) ==> {
                let ls = views(lines@);
                &&& g.wf()
                &&& g.vertex_count() == spec_vertex(ls)
                &&& g.edge_count() == spec_edge(ls)
                &&& forall|x: int, y: int|
                    g.adjacent(x, y) <==> exists|h: int|
                        0 <= h < spec_edge(ls) && 0 <= x < spec_vertex(ls) && 0 <= y
                            < spec_vertex(ls) && pair_matches(ls, h, x, y)
            },
            r matches Err(e) ==> {
                let ls = views(lines@);
                if !header_ok(ls) {
                    e == Error::ConvertError
                } else {
                    e == line_error(
                        ls,
                        spec_vertex(ls),
                        first_bad_from(ls, spec_vertex(ls), spec_edge(ls), 0),
                    )
                }
            },
    {
        let ghost ls = views(lines@);
        let (vertex, edge) = match read_header(lines) {
            Ok(p) => p,
            Err(e) => {
                return Err(e);
            },
        };
        let mut list: Vec<Vec<usize>> = Vec::new();
        let mut x: usize = 0;
        while x < vertex
            invariant
                x <= vertex,
                list@.len() == x,
                forall|k: int| 0 <= k < x ==> (#[trigger] list@[k])@.len() == 0,
            decreases vertex - x,
        {
            let row: Vec<usize> = Vec::new();
            list.push(row);
            x += 1;
        }
        let mut i: usize = 0;
        proof {
            assert(list_loaded(list@, ls, vertex as int, 0));
        }
        while i < edge
            invariant
                i <= edge,
                ls == views(lines@),
                header_ok(ls),
                vertex == spec_vertex(ls),
                edge == spec_edge(ls),
                list_loaded(list@, ls, vertex as int, i as int),
                forall|h: int| 0 <= h < i ==> edge_pair_ok(ls, vertex as int, h),
                forall|x0: int| 0 <= x0 < vertex ==> (#[trigger] list@[x0])@.len() <= i,
            decreases edge - i,
        {
            let (a, b) = match read_edge_pair(lines, i, vertex, Ghost(ls)) {
                Ok(p) => p,
                Err(e) => {
                    proof {
                        lemma_first_bad_prefix(ls, spec_vertex(ls), spec_edge(ls), i as int);
                    }
                    return Err(e);
                },
            };
            if row_contains(&list, a, b) {
                proof {
                    let h = choose|h: int| 0 <= h < i && pair_matches(ls, h, a as int, b as int);
                    assert(pair_matches(ls, h, pair_a(ls, i as int), pair_b(ls, i as int)));
                    assert(!edge_pair_ok(ls, vertex as int, i as int));
                    lemma_first_bad_prefix(ls, spec_vertex(ls), spec_edge(ls), i as int);
                }
                return Err(Error::ParallelEdges);
            }
            let ghost m0 = list@;
            row_push(&mut list, a, b);
            row_push(&mut list, b, a);
            proof {
                // the symmetric row cannot hold `a` either, by the loaded
                // invariant
                assert(!m0[b as int]@.contains(a)) by {
                    if m0[b as int]@.contains(a) {
                        let h = choose|h: int|
                            0 <= h < i && pair_matches(ls, h, b as int, a as int);
                        assert(pair_matches(ls, h, a as int, b as int));
                        assert(m0[a as int]@.contains(b));
                    }
                }
                lemma_push_no_duplicates(m0[a as int]@, b);
                lemma_push_no_duplicates(m0[b as int]@, a);
                assert forall|x0: int, y0: usize|
                    0 <= x0 < vertex && y0 < vertex implies ((#[trigger] list@[x0]@.contains(y0))
                    <==> exists|h: int| 0 <= h < i + 1 && pair_matches(ls, h, x0, y0 as int)) by {
                    lemma_push_contains(m0[a as int]@, b, y0);
                    lemma_push_contains(m0[b as int]@, a, y0);
                    if (x0 == a && y0 == b) || (x0 == b && y0 == a) {
                        assert(pair_matches(ls, i as int, x0, y0 as int));
                        assert(list@[x0]@.contains(y0));
                    } else {
                        assert(!pair_matches(ls, i as int, x0, y0 as int));
                        if list@[x0]@.contains(y0) {
                            assert(m0[x0]@.contains(y0));
                        }
                    }
                }
                assert(list_loaded(list@, ls, vertex as int, i as int + 1));
                assert(edge_pair_ok(ls, vertex as int, i as int));
            }
            i += 1;
        }
        let g = AdjacencyList { vertex, edge, list };
        proof {
            assert(lines_ok(ls));
        }
        Ok(g)
    }
}

/// Appending a fresh value keeps a row free of duplicates.
proof fn lemma_push_no_duplicates(s: Seq<usize>, v: usize)
    requires
        s.no_duplicates(),
        !s.contains(v),
    ensures
        s.push(v).no_duplicates(),
{
    let t = s.push(v);
    assert forall|i: int, j: int| 0 <= i < t.len() && 0 <= j < t.len() && i != j implies t[i]
        != t[j] by {
        if i < s.len() && j < s.len() {
        } else if i < s.len() {
            assert(s.contains(s[i])) by {
                assert(s[i] == s[i]);
            }
        } else if j < s.len() {
            assert(s.contains(s[j])) by {
                assert(s[j] == s[j]);
            }
        }
    }
}

/// What a row holds after a push: its old contents and the new value.
proof fn lemma_push_contains(s: Seq<usize>, v: usize, w: usize)
    ensures
        s.push(v).contains(w) <==> s.contains(w) || w == v,
{
    let t = s.push(v);
    if s.contains(w) {
        let k = choose|k: int| 0 <= k < s.len() && s[k] == w;
        assert(t[k] == w);
    }
    if w == v {
        assert(t[s.len() as int] == w);
    }
    if t.contains(w) && w != v {
        let k = choose|k: int| 0 <= k < t.len() && t[k] == w;
        if k < s.len() {
            assert(s[k] == w);
        }
    }
}

/// Reads the header line: its first two tokens as vertex and edge counts,
/// where a missing input, line or token is read as zero.
fn read_header(lines: &Vec<Vec<u8>>) -> (r: Result<(usize, usize), Error>)
    ensures
        r is Ok <==> header_ok(views(lines@)),
        r matches Ok(p) ==> p.0 == spec_vertex(views(lines@)) && p.1
            == spec_edge(views(lines@)),
        r matches Err(e) ==> e == Error::ConvertError,
{
    let ghost ls = views(lines@);
    let mut zero_line: Vec<u8> = Vec::new();
    zero_line.push(ZERO);
    proof {
        assert(zero_line@ =~= seq![ZERO]);
    }
    let header_line: &Vec<u8> = if lines.len() > 0 {
        &lines[0]
    } else {
        &zero_line
    };
    proof {
        assert(header_line@ == line_at(ls, 0));
    }
    let toks = split_spaces(header_line);
    proof {
        assert(toks@.map_values(|t: Vec<u8>| t@)[0] == header_tok(ls, 0));
    }
    let vertex = match parse_usize(&toks[0]) {
        Ok(v) => v,
        Err(e) => {
            return Err(e);
        },
    };
    let mut zero_tok: Vec<u8> = Vec::new();
    zero_tok.push(ZERO);
    proof {
        assert(zero_tok@ =~= seq![ZERO]);
        assert(seq![ZERO].drop_last() =~= Seq::<u8>::empty());
        assert(num_val(Seq::<u8>::empty()) == 0);
        assert(num_val(seq![ZERO]) == 0);
    }
    let second: &Vec<u8> = if toks.len() > 1 {
        &toks[1]
    } else {
        &zero_tok
    };
    proof {
        assert(second@ == header_tok(ls, 1));
    }
    let edge = match parse_usize(second) {
        Ok(v) => v,
        Err(e) => {
            return Err(e);
        },
    };
    Ok((vertex, edge))
}

/// Reads the line of edge `i`: its first two tokens as the edge's
/// endpoints, each checked against the vertex count and against the other,
/// exactly as `edge_pair_ok` asks short of the parallel-edge condition.
fn read_edge_pair(lines: &Vec<Vec<u8>>, i: usize, vertex: usize, Ghost(ls): Ghost<Seq<Seq<u8>>>) -> (r:
    Result<(usize, usize), Error>)
    requires
        ls == views(lines@),
        i < usize::MAX,
    ensures
        r matches Ok(p) ==> {
            let ts = edge_toks(ls, i as int);
            &&& is_num(ts[0]) && num_val(ts[0]) <= usize::MAX
            &&& pair_a(ls, i as int) <= vertex
            &&& ts.len() >= 2
            &&& is_num(ts[1]) && num_val(ts[1]) <= usize::MAX
            &&& pair_b(ls, i as int) <= vertex
            &&& pair_a(ls, i as int) != pair_b(ls, i as int)
            &&& pair_a(ls, i as int) < vertex && pair_b(ls, i as int) < vertex
            &&& p.0 == pair_a(ls, i as int) && p.1 == pair_b(ls, i as int)
        },
        r matches Err(e) ==> !edge_pair_ok(ls, vertex as int, i as int) && e == line_error(
            ls,
            vertex as int,
            i as int,
        ),
{
    let mut zero_line: Vec<u8> = Vec::new();
    zero_line.push(ZERO);
    proof {
        assert(zero_line@ =~= seq![ZERO]);
    }
    let line: &Vec<u8> = if 1 + i < lines.len() {
        &lines[1 + i]
    } else {
        &zero_line
    };
    proof {
        assert(line@ == line_at(ls, 1 + i as int));
    }
    let toks = split_spaces(line);
    proof {
        assert(toks@.map_values(|t: Vec<u8>| t@) == edge_toks(ls, i as int));
        assert(toks@.map_values(|t: Vec<u8>| t@)[0] == edge_toks(ls, i as int)[0]);
    }
    let a = match parse_usize(&toks[0]) {
        Ok(v) => v,
        Err(e) => {
            return Err(e);
        },
    };
    match validate_vertex(vertex, a) {
        Ok(()) => (),
        Err(e) => {
            return Err(e);
        },
    };
    if toks.len() < 2 {
        return Err(Error::IndexOfBounds);
    }
    proof {
        assert(toks@.map_values(|t: Vec<u8>| t@)[1] == edge_toks(ls, i as int)[1]);
    }
    let b = match parse_usize(&toks[1]) {
        Ok(v) => v,
        Err(e) => {
            return Err(e);
        },
    };
    match validate_vertex(vertex, b) {
        Ok(()) => (),
        Err(e) => {
            return Err(e);
        },
    };
    if a == b {
        return Err(Error::SelfLoop);
    }
    if a >= vertex || b >= vertex {
        // `validate_vertex` admits an endpoint equal to the vertex count,
        // but no row exists for it
        return Err(Error::IndexOfBounds);
    }
    Ok((a, b))
}

} // verus!
