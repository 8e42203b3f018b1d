//! A character trie over token pieces, for greedy longest-match tokenization.
use vstd::prelude::*;
use crate::text;
use crate::marian_tokenizer::lookup;

verus! {

/// A trie whose nodes are numbered; node 0 is the root.  Node `i` stands for the
/// string `paths[i]`, spelled by the edges from the root.
pub struct PieceTrie {
    /// The outgoing edges of each node: a character and the child it leads to.
    children: Vec<Vec<(char, usize)>>,
    /// The id of the piece a node spells, if it is a piece.
    tokens: Vec<Option<i64>>,
    /// The string each node spells.
    paths: Ghost<Seq<Seq<char>>>,
    /// The pieces inserted so far, with their ids.
    pieces: Ghost<Seq<(Seq<char>, i64)>>,
}

// ---------------------------------------------------------------------------
// Specification
// ---------------------------------------------------------------------------

/// Whether some non-empty piece of `ps` occurs in `s` at `pos` and is longer than `len`.
pub open spec fn longer_match_exists(ps: Seq<(Seq<char>, i64)>, s: Seq<char>, pos: int, len: int) -> bool {
    exists|k: int|
        0 <= k < ps.len() && #[trigger] ps[k].0.len() > len && text::occurs_at(s, ps[k].0, pos)
}

/// The longest piece of `ps` occurring in `s` at `pos`, as its length and id (the id of
/// the last entry for that string); `None` when no non-empty piece occurs there.
pub open spec fn longest_match(ps: Seq<(Seq<char>, i64)>, s: Seq<char>, pos: int) -> Option<(int, i64)>
    decreases ps.len(),
{
    if ps.len() == 0 {
        None
    } else {
        let b = longest_match(ps.drop_last(), s, pos);
        let k = ps.last().0;
        if k.len() > 0 && text::occurs_at(s, k, pos) && (b is None || k.len() > (b->0).0) {
            Some((k.len() as int, lookup(ps, k)->0))
        } else {
            match b {
                Some(m) => Some((m.0, lookup(ps, s.subrange(pos, pos + m.0))->0)),
                None => None,
            }
        }
    }
}

// ---------------------------------------------------------------------------
// Lemmas on `lookup` and `longest_match`
// ---------------------------------------------------------------------------

pub proof fn lemma_lookup_some<V>(ps: Seq<(Seq<char>, V)>, k: int)
    requires
        0 <= k < ps.len(),
    ensures
        lookup(ps, ps[k].0) is Some,
    decreases ps.len(),
{
    if k < ps.len() - 1 && ps.last().0 != ps[k].0 {
        assert(ps.drop_last()[k] == ps[k]);
        lemma_lookup_some(ps.drop_last(), k);
    }
}

pub proof fn lemma_lookup_none<V>(ps: Seq<(Seq<char>, V)>, key: Seq<char>)
    requires
        forall|k: int| 0 <= k < ps.len() ==> (#[trigger] ps[k]).0 != key,
    ensures
        lookup(ps, key) is None,
    decreases ps.len(),
{
    if ps.len() > 0 {
        assert(ps.last() == ps[ps.len() - 1]);
        assert forall|k: int| 0 <= k < ps.drop_last().len() implies (
        #[trigger] ps.drop_last()[k]).0 != key by {
            assert(ps.drop_last()[k] == ps[k]);
        }
        lemma_lookup_none(ps.drop_last(), key);
    }
}

pub proof fn lemma_lookup_push<V>(ps: Seq<(Seq<char>, V)>, key: Seq<char>, v: V, s: Seq<char>)
    ensures
        lookup(ps.push((key, v)), s) == if s == key {
            Some(v)
        } else {
            lookup(ps, s)
        },
{
    assert(ps.push((key, v)).drop_last() == ps);
}

/// The longest match is a piece that occurs at `pos`, and no piece occurring there is
/// longer.
pub proof fn lemma_longest_match(ps: Seq<(Seq<char>, i64)>, s: Seq<char>, pos: int)
    ensures
        match longest_match(ps, s, pos) {
            Some(m) => {
                &&& m.0 > 0
                &&& 0 <= pos && pos + m.0 <= s.len()
                &&& text::occurs_at(s, s.subrange(pos, pos + m.0), pos)
                &&& lookup(ps, s.subrange(pos, pos + m.0)) == Some(m.1)
                &&& !longer_match_exists(ps, s, pos, m.0)
            },
            None => !longer_match_exists(ps, s, pos, 0),
        },
    decreases ps.len(),
{
    if ps.len() > 0 {
        let d = ps.drop_last();
        lemma_longest_match(d, s, pos);
        let b = longest_match(d, s, pos);
        let k = ps.last().0;
        assert(ps.last() == ps[ps.len() - 1]);
        if k.len() > 0 && text::occurs_at(s, k, pos) && (b is None || k.len() > (b->0).0) {
            assert(s.subrange(pos, pos + k.len()) == k);
            lemma_lookup_some(ps, ps.len() - 1);
            assert forall|j: int|
                0 <= j < ps.len() && #[trigger] ps[j].0.len() > k.len() implies !text::occurs_at(
                s,
                ps[j].0,
                pos,
            ) by {
                if j < ps.len() - 1 {
                    assert(d[j] == ps[j]);
                    if text::occurs_at(s, ps[j].0, pos) {
                        match b {
                            Some(m) => {
                                assert(!longer_match_exists(d, s, pos, m.0));
                                assert(d[j].0.len() > m.0);
                            },
                            None => {
                                assert(!longer_match_exists(d, s, pos, 0));
                                assert(d[j].0.len() > 0);
                            },
                        }
                    }
                }
            }
        } else {
            match b {
                Some(m) => {
                    let key = s.subrange(pos, pos + m.0);
                    assert(lookup(d, key) == Some(m.1));
                    assert(lookup(ps, key) is Some) by {
                        lemma_lookup_push(d, k, ps.last().1, key);
                        assert(d.push(ps.last()) == ps);
                    }
                    assert forall|j: int|
                        0 <= j < ps.len() && #[trigger] ps[j].0.len() > m.0 implies !text::occurs_at(
                        s,
                        ps[j].0,
                        pos,
                    ) by {
                        if j < ps.len() - 1 {
                            assert(d[j] == ps[j]);
                        }
                    }
                },
                None => {
                    assert forall|j: int|
                        0 <= j < ps.len() && #[trigger] ps[j].0.len() > 0 implies !text::occurs_at(
                        s,
                        ps[j].0,
                        pos,
                    ) by {
                        if j < ps.len() - 1 {
                            assert(d[j] == ps[j]);
                        }
                    }
                },
            }
        }
    }
}

/// Two lengths that are both matches at `pos`, each with nothing longer, are equal; so
/// the longest match is determined by the pieces that occur.
pub proof fn lemma_longest_match_unique(ps: Seq<(Seq<char>, i64)>, s: Seq<char>, pos: int, len: int)
    requires
        len > 0,
        pos + len <= s.len(),
        0 <= pos,
        lookup(ps, s.subrange(pos, pos + len)) is Some,
        !longer_match_exists(ps, s, pos, len),
    ensures
        longest_match(ps, s, pos) == Some((len, lookup(ps, s.subrange(pos, pos + len))->0)),
{
    lemma_longest_match(ps, s, pos);
    let key = s.subrange(pos, pos + len);
    let k = lemma_lookup_witness(ps, key);
    assert(ps[k].0 == key);
    assert(text::occurs_at(s, key, pos));
    match longest_match(ps, s, pos) {
        Some(m) => {
            if m.0 < len {
                assert(ps[k].0.len() > m.0);
            } else if m.0 > len {
                let key2 = s.subrange(pos, pos + m.0);
                assert(text::occurs_at(s, key2, pos));
                assert(key2.len() == m.0);
                let k2 = lemma_lookup_witness(ps, key2);
                assert(ps[k2].0.len() > len);
                assert(text::occurs_at(s, ps[k2].0, pos));
            }
        },
        None => {
            assert(ps[k].0.len() > 0);
        },
    }
}

pub proof fn lemma_lookup_witness<V>(ps: Seq<(Seq<char>, V)>, key: Seq<char>) -> (k: int)
    requires
        lookup(ps, key) is Some,
    ensures
        0 <= k < ps.len(),
        ps[k].0 == key,
    decreases ps.len(),
{
    if ps.last().0 == key {
        ps.len() - 1
    } else {
        let k = lemma_lookup_witness(ps.drop_last(), key);
        assert(ps.drop_last()[k] == ps[k]);
        k
    }
}

// ---------------------------------------------------------------------------
// Well-formedness
// ---------------------------------------------------------------------------

pub open spec fn edges_ok(children: Seq<Seq<(char, usize)>>, paths: Seq<Seq<char>>) -> bool {
    forall|i: int, k: int|
        0 <= i < children.len() && 0 <= k < children[i].len() ==> {
            let e = #[trigger] children[i][k];
            &&& 0 < e.1 < children.len()
            &&& paths[e.1 as int] == paths[i].push(e.0)
        }
}

pub open spec fn paths_unique(paths: Seq<Seq<char>>) -> bool {
    forall|i: int, j: int|
        0 <= i < paths.len() && 0 <= j < paths.len() && #[trigger] paths[i] == #[trigger] paths[j]
            ==> i == j
}

pub open spec fn has_parent_edge(children: Seq<Seq<(char, usize)>>, paths: Seq<Seq<char>>, j: int) -> bool {
    exists|i: int, k: int|
        0 <= i < children.len() && 0 <= k < children[i].len() && #[trigger] children[i][k] == (
            paths[j].last(),
            j as usize,
        ) && paths[i] == paths[j].drop_last()
}

pub open spec fn has_node(paths: Seq<Seq<char>>, s: Seq<char>) -> bool {
    exists|i: int| 0 <= i < paths.len() && #[trigger] paths[i] == s
}

impl PieceTrie {
    /// The edges of every node, as plain values.
    pub closed spec fn edges(&self) -> Seq<Seq<(char, usize)>> {
        self.children@.map_values(|v: Vec<(char, usize)>| v@)
    }

    /// The number of nodes.
    pub closed spec fn node_count(&self) -> nat {
        self.children@.len()
    }

    /// The pieces stored, with their ids, in insertion order.
    pub closed spec fn pieces(&self) -> Seq<(Seq<char>, i64)> {
        self.pieces@
    }

    pub closed spec fn wf(&self) -> bool {
        let ch = self.edges();
        let paths = self.paths@;
        let ps = self.pieces@;
        &&& ch.len() == paths.len()
        &&& self.tokens@.len() == paths.len()
        &&& paths.len() >= 1
        &&& paths.len() < usize::MAX
        &&& paths[0] == Seq::<char>::empty()
        &&& edges_ok(ch, paths)
        &&& paths_unique(paths)
        &&& forall|j: int| 0 < j < paths.len() ==> #[trigger] paths[j].len() > 0 && has_parent_edge(ch, paths, j)
        &&& forall|i: int| 0 <= i < paths.len() ==> #[trigger] self.tokens@[i] == lookup(ps, paths[i])
        &&& forall|k: int, m: int|
            0 <= k < ps.len() && 0 <= m <= ps[k].0.len() ==> has_node(paths, #[trigger] ps[k].0.subrange(0, m))
        &&& forall|k: int| 0 <= k < ps.len() ==> (#[trigger] ps[k]).0.len() > 0
    }

    /// The number of nodes.
    pub fn num_nodes(&self) -> (r: usize)
        ensures
            r == self.node_count(),
    {
        self.children.len()
    }

    /// The trie with no piece.
    pub fn new() -> (r: Self)
        ensures
            r.wf(),
            r.pieces() == Seq::<(Seq<char>, i64)>::empty(),
            r.node_count() == 1,
    {
        let mut children: Vec<Vec<(char, usize)>> = Vec::new();
        children.push(Vec::new());
        let mut tokens: Vec<Option<i64>> = Vec::new();
        tokens.push(None);
        let r = PieceTrie {
            children,
            tokens,
            paths: Ghost(Seq::<Seq<char>>::empty().push(Seq::<char>::empty())),
            pieces: Ghost(Seq::empty()),
        };
        assert(r.paths@[0] == Seq::<char>::empty());
        r
    }

    /// The child of `node` along character `c`.
    fn child(&self, node: usize, c: char) -> (r: Option<usize>)
        requires
            self.wf(),
            node < self.children@.len(),
        ensures
            match r {
                Some(j) => j < self.children@.len() && self.paths@[j as int] == self.paths@[node as int].push(c),
                None => !has_node(self.paths@, self.paths@[node as int].push(c)),
            },
    {
        let row = &self.children[node];
        let mut k: usize = 0;
        while k < row.len()
            invariant
                self.wf(),
                node < self.children@.len(),
                row@ == self.edges()[node as int],
                k <= row.len(),
                forall|q: int| 0 <= q < k ==> (#[trigger] row@[q]).0 != c,
            decreases row.len() - k,
        {
            if row[k].0 == c {
                let j = row[k].1;
                assert(self.edges()[node as int][k as int] == row@[k as int]);
                return Some(j);
            }
            k += 1;
        }
        proof {
            let target = self.paths@[node as int].push(c);
            if has_node(self.paths@, target) {
                let j = choose|j: int| 0 <= j < self.paths@.len() && #[trigger] self.paths@[j] == target;
                assert(j != 0) by {
                    assert(self.paths@[j].len() > 0);
                }
                assert(has_parent_edge(self.edges(), self.paths@, j));
                let (i, q) = choose|i: int, q: int|
                    0 <= i < self.children@.len() && 0 <= q < self.edges()[i].len()
                        && #[trigger] self.edges()[i][q] == (self.paths@[j].last(), j as usize)
                        && self.paths@[i] == self.paths@[j].drop_last();
                assert(target.drop_last() == self.paths@[node as int]);
                assert(self.paths@[i] == self.paths@[node as int]);
                assert(i == node);
                assert(row@[q] == self.edges()[i][q]);
                assert(row@[q].0 == c);
            }
        }
        None
    }

    /// Adds `piece` with id `id`; `piece` is non-empty and not yet stored.
    pub fn insert(&mut self, piece: &Vec<char>, id: i64)
        requires
            old(self).wf(),
            piece@.len() > 0,
            lookup(old(self).pieces(), piece@) is None,
            old(self).node_count() + piece@.len() < usize::MAX,
        ensures
            final(self).wf(),
            final(self).pieces() == old(self).pieces().push((piece@, id)),
            final(self).node_count() <= old(self).node_count() + piece@.len(),
    {
        let ghost p = piece@;
        let ghost n0 = self.children@.len();
        let mut cur: usize = 0;
        let mut m: usize = 0;
        assert(p.subrange(0, 0) == Seq::<char>::empty());
        while m < piece.len()
            invariant
                self.wf(),
                p == piece@,
                self.pieces() == old(self).pieces(),
                lookup(self.pieces(), p) is None,
                m <= piece.len(),
                cur < self.children@.len(),
                self.paths@[cur as int] == p.subrange(0, m as int),
                forall|q: int| 0 <= q <= m ==> has_node(self.paths@, #[trigger] p.subrange(0, q)),
                self.children@.len() <= n0 + m,
                n0 + p.len() < usize::MAX,
            decreases piece.len() - m,
        {
            let c = piece[m];
            assert(p.subrange(0, m + 1) == p.subrange(0, m as int).push(c));
            match self.child(cur, c) {
                Some(j) => {
                    cur = j;
                },
                None => {
                    let n = self.children.len();
                    let ghost s0 = *self;
                    let ghost old_ch = self.edges();
                    let ghost old_paths = self.paths@;
                    let ghost old_tokens = self.tokens@;
                    let ghost np = p.subrange(0, m + 1);
                    // The new node.
                    self.children.push(Vec::new());
                    proof {
                        assert(lookup(self.pieces@, np) is None) by {
                            if lookup(self.pieces@, np) is Some {
                                let k = lemma_lookup_witness(self.pieces@, np);
                                assert(self.pieces@[k].0.subrange(0, self.pieces@[k].0.len() as int) == np);
                                assert(has_node(old_paths, np));
                            }
                        }
                    }
                    self.tokens.push(None);
                    self.paths = Ghost(self.paths@.push(np));
                    // The edge into it.
                    let mut row: Vec<(char, usize)> = Vec::new();
                    let mut k: usize = 0;
                    while k < self.children[cur].len()
                        invariant
                            cur < self.children@.len(),
                            k <= self.edges()[cur as int].len(),
                            row@ == self.edges()[cur as int].subrange(0, k as int),
                        decreases self.edges()[cur as int].len() - k,
                    {
                        row.push(self.children[cur][k]);
                        assert(self.edges()[cur as int].subrange(0, k + 1) == self.edges()[cur as int].subrange(
                            0,
                            k as int,
                        ).push(self.edges()[cur as int][k as int]));
                        k += 1;
                    }
                    assert(self.edges()[cur as int].subrange(0, k as int) == self.edges()[cur as int]);
                    row.push((c, n));
                    let ghost new_row = row@;
                    self.children.set(cur, row);
                    proof {
                        assert(self.edges()[cur as int] == new_row);
                        assert forall|i: int| 0 <= i < n && i != cur implies #[trigger] self.edges()[i] == old_ch[i] by {}
                        assert(self.edges()[n as int] == Seq::<(char, usize)>::empty());
                        let ch = self.edges();
                        let paths = self.paths@;
                        assert(paths.len() == n + 1);
                        assert(paths[n as int] == np);
                        assert forall|i: int, q: int|
                            0 <= i < ch.len() && 0 <= q < ch[i].len() implies {
                            let e = #[trigger] ch[i][q];
                            &&& 0 < e.1 < ch.len()
                            &&& paths[e.1 as int] == paths[i].push(e.0)
                        } by {
                            if i == cur {
                                if q < old_ch[i].len() {
                                    assert(ch[i][q] == old_ch[i][q]);
                                }
                            } else if i < n {
                                assert(ch[i] == old_ch[i]);
                                assert(ch[i][q] == old_ch[i][q]);
                            }
                        }
                        assert forall|i: int, j: int|
                            0 <= i < paths.len() && 0 <= j < paths.len() && #[trigger] paths[i]
                                == #[trigger] paths[j] implies i == j by {
                            if i < n && j == n {
                                assert(old_paths[i] == np);
                                assert(has_node(old_paths, np));
                            } else if j < n && i == n {
                                assert(old_paths[j] == np);
                                assert(has_node(old_paths, np));
                            }
                        }
                        assert forall|j: int| 0 < j < paths.len() implies #[trigger] paths[j].len() > 0
                            && has_parent_edge(ch, paths, j) by {
                            if j == n {
                                let q = old_ch[cur as int].len() as int;
                                assert(ch[cur as int][q] == (c, n));
                                assert(np.last() == c);
                                assert(np.drop_last() == paths[cur as int]);
                                assert(ch[cur as int][q] == (paths[j].last(), j as usize));
                            } else {
                                assert(s0.wf());
                                assert(s0.paths@ == old_paths);
                                assert(s0.edges() == old_ch);
                                assert(old_paths[j].len() > 0);
                                assert(has_parent_edge(old_ch, old_paths, j));
                                let (i, q) = choose|i: int, q: int|
                                    0 <= i < old_ch.len() && 0 <= q < old_ch[i].len()
                                        && #[trigger] old_ch[i][q] == (old_paths[j].last(), j as usize)
                                        && old_paths[i] == old_paths[j].drop_last();
                                assert(ch[i][q] == old_ch[i][q]);
                            }
                        }
                        assert forall|i: int| 0 <= i < paths.len() implies #[trigger] self.tokens@[i]
                            == lookup(self.pieces@, paths[i]) by {
                            if i < n {
                                assert(self.tokens@[i] == old_tokens[i]);
                            }
                        }
                        assert forall|k: int, mm: int|
                            0 <= k < self.pieces@.len() && 0 <= mm <= self.pieces@[k].0.len() implies has_node(
                            paths,
                            #[trigger] self.pieces@[k].0.subrange(0, mm),
                        ) by {
                            assert(has_node(old_paths, self.pieces@[k].0.subrange(0, mm)));
                            let w = choose|w: int| 0 <= w < old_paths.len() && #[trigger] old_paths[w]
                                == self.pieces@[k].0.subrange(0, mm);
                            assert(paths[w] == old_paths[w]);
                        }
                        assert forall|q: int| 0 <= q <= m + 1 implies has_node(paths, #[trigger] p.subrange(0, q)) by {
                            if q <= m {
                                assert(has_node(old_paths, p.subrange(0, q)));
                                let w = choose|w: int| 0 <= w < old_paths.len() && #[trigger] old_paths[w]
                                    == p.subrange(0, q);
                                assert(paths[w] == old_paths[w]);
                            } else {
                                assert(paths[n as int] == p.subrange(0, q));
                            }
                        }
                    }
                    cur = n;
                },
            }
            proof {
                assert forall|q: int| 0 <= q <= m + 1 implies has_node(self.paths@, #[trigger] p.subrange(0, q)) by {
                    if q == m + 1 {
                        assert(self.paths@[cur as int] == p.subrange(0, q));
                    }
                }
            }
            m += 1;
        }
        assert(p.subrange(0, p.len() as int) == p);
        let ghost old_pieces = self.pieces@;
        let ghost old_tokens = self.tokens@;
        self.pieces = Ghost(self.pieces@.push((p, id)));
        self.tokens.set(cur, Some(id));
        proof {
            let ps = self.pieces@;
            let paths = self.paths@;
            assert forall|i: int| 0 <= i < paths.len() implies #[trigger] self.tokens@[i] == lookup(ps, paths[i]) by {
                lemma_lookup_push(old_pieces, p, id, paths[i]);
                if i != cur {
                    assert(self.tokens@[i] == old_tokens[i]);
                    assert(paths[i] != p);
                }
            }
            assert forall|k: int, mm: int| 0 <= k < ps.len() && 0 <= mm <= ps[k].0.len() implies has_node(
                paths,
                #[trigger] ps[k].0.subrange(0, mm),
            ) by {
                if k < old_pieces.len() {
                    assert(ps[k] == old_pieces[k]);
                }
            }
            assert forall|k: int| 0 <= k < ps.len() implies (#[trigger] ps[k]).0.len() > 0 by {
                if k < old_pieces.len() {
                    assert(ps[k] == old_pieces[k]);
                }
            }
        }
    }

    /// The longest stored piece occurring in `s` at `pos`, as its length and id.
    pub fn longest_match_at(&self, s: &Vec<char>, pos: usize) -> (r: Option<(usize, i64)>)
        requires
            self.wf(),
            pos < s@.len(),
        ensures
            match r {
                Some(m) => longest_match(self.pieces(), s@, pos as int) == Some((m.0 as int, m.1)),
                None => longest_match(self.pieces(), s@, pos as int) is None,
            },
    {
        let ghost ps = self.pieces@;
        let mut node: usize = 0;
        let mut best: Option<(usize, i64)> = None;
        let mut inner: usize = pos;
        let mut blocked = false;
        assert(s@.subrange(pos as int, pos as int) == Seq::<char>::empty());
        while inner < s.len() && !blocked
            invariant
                self.wf(),
                ps == self.pieces@,
                pos <= inner <= s@.len(),
                node < self.children@.len(),
                self.paths@[node as int] == s@.subrange(pos as int, inner as int),
                blocked ==> forall|k: int|
                    0 <= k < ps.len() && #[trigger] ps[k].0.len() > inner - pos ==> !text::occurs_at(
                        s@,
                        ps[k].0,
                        pos as int,
                    ),
                match best {
                    Some(m) => {
                        &&& 0 < m.0 <= inner - pos
                        &&& lookup(ps, s@.subrange(pos as int, pos + m.0)) == Some(m.1)
                        &&& forall|k: int|
                            0 <= k < ps.len() && #[trigger] ps[k].0.len() > m.0 && ps[k].0.len() <= inner - pos
                                ==> !text::occurs_at(s@, ps[k].0, pos as int)
                    },
                    None => forall|k: int|
                        0 <= k < ps.len() && #[trigger] ps[k].0.len() <= inner - pos ==> !text::occurs_at(
                            s@,
                            ps[k].0,
                            pos as int,
                        ),
                },
            decreases (s.len() - inner) * 2 + if blocked { 0int } else { 1int },
        {
            let c = s[inner];
            let ghost cur_path = s@.subrange(pos as int, inner as int);
            let ghost next_path = s@.subrange(pos as int, inner + 1);
            assert(next_path == cur_path.push(c));
            match self.child(node, c) {
                Some(j) => {
                    node = j;
                    if let Some(id) = self.tokens[node] {
                        best = Some((inner - pos + 1, id));
                    }
                    proof {
                        assert(self.tokens@[node as int] == lookup(ps, next_path));
                        assert forall|k: int|
                            0 <= k < ps.len() && #[trigger] ps[k].0.len() == inner + 1 - pos && text::occurs_at(
                                s@,
                                ps[k].0,
                                pos as int,
                            ) implies lookup(ps, next_path) is Some by {
                            assert(ps[k].0 == next_path);
                            lemma_lookup_some(ps, k);
                        }
                    }
                    inner += 1;
                },
                None => {
                    proof {
                        assert forall|k: int|
                            0 <= k < ps.len() && #[trigger] ps[k].0.len() > inner - pos implies !text::occurs_at(
                            s@,
                            ps[k].0,
                            pos as int,
                        ) by {
                            if text::occurs_at(s@, ps[k].0, pos as int) {
                                let len = inner + 1 - pos;
                                assert(has_node(self.paths@, ps[k].0.subrange(0, len)));
                                assert(ps[k].0.subrange(0, len) == next_path);
                            }
                        }
                    }
                    blocked = true;
                },
            }
        }
        proof {
            assert forall|k: int| 0 <= k < ps.len() && #[trigger] ps[k].0.len() > inner - pos implies !text::occurs_at(
                s@,
                ps[k].0,
                pos as int,
            ) by {
                if !blocked {
                    assert(inner == s@.len());
                }
            }
        }
        match best {
            Some(m) => {
                proof {
                    lemma_longest_match_unique(ps, s@, pos as int, m.0 as int);
                }
                Some(m)
            },
            None => {
                proof {
                    lemma_longest_match(ps, s@, pos as int);
                    if longest_match(ps, s@, pos as int) is Some {
                        let m = longest_match(ps, s@, pos as int)->0;
                        let key = s@.subrange(pos as int, pos + m.0);
                        let k = lemma_lookup_witness(ps, key);
                        assert(ps[k].0.len() > 0);
                    }
                }
                None
            },
        }
    }
}

} // verus!
