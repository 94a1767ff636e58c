//! Selectors: dotted paths into values, such as `hr.employees[2].name`.
use vstd::prelude::*;

use crate::text::{chars_of, i64_to_string, int_text, string_from_chars};

verus! {

/// One step of a selector: a key or an index.
#[derive(Debug, Clone, PartialEq)]
pub enum SelectorNode {
    String(String),
    Number(i64),
}

/// The mathematical content of a [`SelectorNode`].
pub ghost enum NodeModel {
    Str(Seq<char>),
    Num(i64),
}

impl View for SelectorNode {
    type V = NodeModel;

    open spec fn view(&self) -> NodeModel {
        match self {
            SelectorNode::String(s) => NodeModel::Str(s@),
            SelectorNode::Number(i) => NodeModel::Num(*i),
        }
    }
}

/// The text of a node: the key itself, or the decimal notation of the index.
pub open spec fn node_text(n: NodeModel) -> Seq<char> {
    match n {
        NodeModel::Str(s) => s,
        NodeModel::Num(i) => int_text(i as int),
    }
}

/// The node written as a key.
pub open spec fn stringify(n: NodeModel) -> NodeModel {
    NodeModel::Str(node_text(n))
}

/// The empty key, which stands for the root of the data.
pub open spec fn root_node() -> NodeModel {
    NodeModel::Str(Seq::empty())
}

impl Default for SelectorNode {
    fn default() -> (r: Self)
        ensures
            r@ == root_node(),
    {
        SelectorNode::String(String::new())
    }
}

impl SelectorNode {
    /// The key node `s`.
    pub fn from_str(s: &str) -> (r: Self)
        ensures
            r@ == NodeModel::Str(s@),
    {
        SelectorNode::String(s.to_owned())
    }

    /// The index node `i`.
    pub fn from_i64(i: i64) -> (r: Self)
        ensures
            r@ == NodeModel::Num(i),
    {
        SelectorNode::Number(i)
    }

    /// The text of the node.
    pub fn to_string(&self) -> (r: String)
        ensures
            r@ == node_text(self@),
    {
        match self {
            SelectorNode::String(s) => s.clone(),
            SelectorNode::Number(i) => i64_to_string(*i),
        }
    }

    /// A copy of the node.
    pub fn copy(&self) -> (r: Self)
        ensures
            r@ == self@,
    {
        match self {
            SelectorNode::String(s) => SelectorNode::String(s.clone()),
            SelectorNode::Number(i) => SelectorNode::Number(*i),
        }
    }

    /// Whether the node is the empty key.
    pub fn is_root(&self) -> (r: bool)
        ensures
            r == (self@ == root_node()),
    {
        match self {
            SelectorNode::String(s) => {
                let e = String::new();
                let r = *s == e;
                assert(r ==> s@ == Seq::<char>::empty());
                assert(s@ == Seq::<char>::empty() ==> s@ == e@);
                r
            },
            SelectorNode::Number(_) => false,
        }
    }
}

/// A path of nodes.
#[derive(Debug, Clone, PartialEq, Default)]
pub struct Selector {
    pub data: Vec<SelectorNode>,
}

/// The models of a sequence of nodes.
pub open spec fn node_models(s: Seq<SelectorNode>) -> Seq<NodeModel> {
    s.map_values(|n: SelectorNode| n@)
}

impl View for Selector {
    type V = Seq<NodeModel>;

    open spec fn view(&self) -> Seq<NodeModel> {
        node_models(self.data@)
    }
}

/// The texts of the nodes.
pub open spec fn texts(s: Seq<NodeModel>) -> Seq<Seq<char>> {
    s.map_values(|n: NodeModel| node_text(n))
}

/// Joins texts with `.` between them.
pub open spec fn join_dot(parts: Seq<Seq<char>>) -> Seq<char>
    decreases parts.len(),
{
    if parts.len() == 0 {
        Seq::empty()
    } else if parts.len() == 1 {
        parts[0]
    } else {
        join_dot(parts.drop_last()) + seq!['.'] + parts.last()
    }
}

/// A text without `.`.
pub open spec fn dot_free(s: Seq<char>) -> bool {
    forall|i: int| 0 <= i < s.len() ==> s[i] != '.'
}

/// All nodes are keys whose texts hold no `.`.
pub open spec fn plain_keys(s: Seq<NodeModel>) -> bool {
    forall|i: int| 0 <= i < s.len() ==> #[trigger] s[i] is Str && dot_free(node_text(s[i]))
}

/// A copy of a list of nodes.
pub fn copy_nodes(v: &[SelectorNode]) -> (r: Vec<SelectorNode>)
    ensures
        node_models(r@) == node_models(v@),
{
    let mut out: Vec<SelectorNode> = Vec::new();
    let mut i: usize = 0;
    while i < v.len()
        invariant
            i <= v@.len(),
            out@.len() == i,
            forall|j: int| 0 <= j < i ==> (#[trigger] out@[j])@ == v@[j]@,
        decreases v@.len() - i,
    {
        out.push(v[i].copy());
        i = i + 1;
    }
    assert(node_models(out@) =~= node_models(v@));
    out
}

impl Selector {
    /// The selector made of `nodes`.
    pub fn from_nodes(nodes: &[SelectorNode]) -> (r: Self)
        ensures
            r@ == node_models(nodes@),
    {
        Selector { data: copy_nodes(nodes) }
    }

    /// The selector whose keys are `keys`.
    pub fn from_strs(keys: &[&str]) -> (r: Self)
        ensures
            r@.len() == keys@.len(),
            forall|i: int| 0 <= i < keys@.len() ==> #[trigger] r@[i] == NodeModel::Str(keys@[i]@),
    {
        let mut data: Vec<SelectorNode> = Vec::new();
        let mut i: usize = 0;
        while i < keys.len()
            invariant
                i <= keys@.len(),
                data@.len() == i,
                forall|j: int| 0 <= j < i ==> (#[trigger] data@[j])@ == NodeModel::Str(keys@[j]@),
            decreases keys@.len() - i,
        {
            data.push(SelectorNode::String(keys[i].to_owned()));
            i = i + 1;
        }
        Selector { data }
    }

    /// The selector whose keys are `keys`.
    pub fn from_strings(keys: &[String]) -> (r: Self)
        ensures
            r@.len() == keys@.len(),
            forall|i: int| 0 <= i < keys@.len() ==> #[trigger] r@[i] == NodeModel::Str(keys@[i]@),
    {
        let mut data: Vec<SelectorNode> = Vec::new();
        let mut i: usize = 0;
        while i < keys.len()
            invariant
                i <= keys@.len(),
                data@.len() == i,
                forall|j: int| 0 <= j < i ==> (#[trigger] data@[j])@ == NodeModel::Str(keys@[j]@),
            decreases keys@.len() - i,
        {
            data.push(SelectorNode::String(keys[i].clone()));
            i = i + 1;
        }
        Selector { data }
    }

    /// The selector of the `.`-separated keys of `path` (`"a.b"` gives
    /// `a`, `b`; `""` gives the one empty key).
    pub fn from_path(path: &str) -> (r: Self)
        ensures
            r@.len() >= 1,
            plain_keys(r@),
            join_dot(texts(r@)) == path@,
    {
        let cs = chars_of(path);
        let mut data: Vec<SelectorNode> = Vec::new();
        let mut cur: Vec<char> = Vec::new();
        let mut i: usize = 0;
        while i < cs.len()
            invariant
                i <= cs@.len(),
                cs@ == path@,
                plain_keys(node_models(data@)),
                dot_free(cur@),
                join_dot(texts(node_models(data@)).push(cur@)) == cs@.take(i as int),
            decreases cs@.len() - i,
        {
            let c = cs[i];
            let ghost parts = texts(node_models(data@));
            if c == '.' {
                let ghost old_cur = cur@;
                let ghost old_models = node_models(data@);
                let node = SelectorNode::String(string_from_chars(cur.as_slice()));
                data.push(node);
                assert(node_models(data@) =~= old_models.push(NodeModel::Str(old_cur)));
                assert(texts(node_models(data@)) =~= parts.push(old_cur));
                cur = Vec::new();
                let ghost np = parts.push(old_cur);
                assert(np.push(cur@).drop_last() =~= np);
                assert(join_dot(np.push(cur@)) =~= join_dot(np) + seq!['.']);
                assert(cs@.take(i + 1) =~= cs@.take(i as int).push(c));
                assert(join_dot(texts(node_models(data@)).push(cur@)) =~= cs@.take(i + 1));
            } else {
                let ghost old_cur = cur@;
                cur.push(c);
                assert(parts.push(cur@).drop_last() =~= parts);
                assert(parts.push(old_cur).drop_last() =~= parts);
                assert(join_dot(parts.push(cur@)) =~= join_dot(parts.push(old_cur)).push(c));
                assert(cs@.take(i + 1) =~= cs@.take(i as int).push(c));
            }
            i = i + 1;
        }
        let node = SelectorNode::String(string_from_chars(cur.as_slice()));
        let ghost parts = texts(node_models(data@));
        let ghost old_models = node_models(data@);
        data.push(node);
        assert(node_models(data@) =~= old_models.push(NodeModel::Str(cur@)));
        assert(texts(node_models(data@)) =~= parts.push(cur@));
        assert(cs@.take(cs@.len() as int) =~= cs@);
        Selector { data }
    }

    /// The number of nodes.
    pub fn len(&self) -> (r: usize)
        ensures
            r == self@.len(),
    {
        self.data.len()
    }

    /// The text of the last node, if any.
    pub fn last(&self) -> (r: Option<String>)
        ensures
            match r {
                Some(s) => self@.len() > 0 && s@ == node_text(self@.last()),
                None => self@.len() == 0,
            },
    {
        if self.data.len() == 0 {
            None
        } else {
            Some(self.data[self.data.len() - 1].to_string())
        }
    }

    /// The first node and the rest, if the selector is not empty.
    pub fn split_first(&self) -> (r: Option<(SelectorNode, Selector)>)
        ensures
            match r {
                Some((h, t)) => self@.len() > 0 && h@ == self@[0] && t@ == self@.drop_first(),
                None => self@.len() == 0,
            },
    {
        if self.data.len() == 0 {
            None
        } else {
            let head = self.data[0].copy();
            let mut rest: Vec<SelectorNode> = Vec::new();
            let mut i: usize = 1;
            while i < self.data.len()
                invariant
                    1 <= i <= self.data@.len(),
                    rest@.len() == i - 1,
                    forall|j: int|
                        0 <= j < i - 1 ==> (#[trigger] rest@[j])@ == self.data@[j + 1]@,
                decreases self.data@.len() - i,
            {
                rest.push(self.data[i].copy());
                i = i + 1;
            }
            let tail = Selector { data: rest };
            assert(tail@ =~= self@.drop_first());
            Some((head, tail))
        }
    }

    /// The texts of the nodes joined with `.`.
    pub fn to_string(&self) -> (r: String)
        ensures
            r@ == join_dot(texts(self@)),
    {
        let mut out: Vec<char> = Vec::new();
        let mut i: usize = 0;
        while i < self.data.len()
            invariant
                i <= self.data@.len(),
                out@ == join_dot(texts(self@).take(i as int)),
            decreases self.data@.len() - i,
        {
            let t = self.data[i].to_string();
            let tc = chars_of(t.as_str());
            let ghost before = out@;
            if i > 0 {
                out.push('.');
            }
            let mut k: usize = 0;
            while k < tc.len()
                invariant
                    k <= tc@.len(),
                    out@ == (if i > 0 {
                        before + seq!['.']
                    } else {
                        before
                    }) + tc@.take(k as int),
                decreases tc@.len() - k,
            {
                out.push(tc[k]);
                assert(tc@.take(k + 1) =~= tc@.take(k as int).push(tc@[k as int]));
                k = k + 1;
            }
            assert(tc@.take(k as int) =~= tc@);
            assert(texts(self@).take(i + 1).drop_last() =~= texts(self@).take(i as int));
            assert(texts(self@)[i as int] == node_text(self@[i as int]));
            if i == 0 {
                assert(before =~= Seq::<char>::empty());
            }
            assert(out@ =~= join_dot(texts(self@).take(i + 1)));
            i = i + 1;
        }
        assert(texts(self@).take(i as int) =~= texts(self@));
        string_from_chars(out.as_slice())
    }

    /// The nodes, in order.
    pub fn to_vec(&self) -> (r: Vec<SelectorNode>)
        ensures
            node_models(r@) == self@,
    {
        copy_nodes(self.data.as_slice())
    }

    /// A copy of the selector.
    pub fn copy(&self) -> (r: Selector)
        ensures
            r@ == self@,
    {
        Selector { data: copy_nodes(self.data.as_slice()) }
    }
}


/// Where two texts that end in `.` and a dot-free part are equal, the parts
/// before the last `.` are equal, and so are the last parts.
proof fn lemma_split_last_dot(x: Seq<char>, t: Seq<char>, y: Seq<char>, u: Seq<char>)
    requires
        dot_free(t),
        dot_free(u),
        x + seq!['.'] + t == y + seq!['.'] + u,
    ensures
        x == y,
        t == u,
{
    let xd = x + seq!['.'];
    let yd = y + seq!['.'];
    let l = xd + t;
    let r = yd + u;
    assert(l.len() == r.len());
    if x.len() < y.len() {
        assert(r[y.len() as int] == yd[y.len() as int]);
        assert(yd[y.len() as int] == '.');
        assert(l[y.len() as int] == t[y.len() - xd.len()]);
    } else if y.len() < x.len() {
        assert(l[x.len() as int] == xd[x.len() as int]);
        assert(xd[x.len() as int] == '.');
        assert(r[x.len() as int] == u[x.len() - yd.len()]);
    }
    assert(x =~= l.subrange(0, x.len() as int));
    assert(y =~= r.subrange(0, y.len() as int));
    assert(t =~= l.subrange(x.len() as int + 1, l.len() as int));
    assert(u =~= r.subrange(y.len() as int + 1, r.len() as int));
}

/// Joining dot-free parts with `.` loses nothing: equal joins come from equal
/// parts.
pub proof fn lemma_join_dot_injective(p: Seq<Seq<char>>, q: Seq<Seq<char>>)
    requires
        p.len() >= 1,
        q.len() >= 1,
        forall|i: int| 0 <= i < p.len() ==> dot_free(#[trigger] p[i]),
        forall|i: int| 0 <= i < q.len() ==> dot_free(#[trigger] q[i]),
        join_dot(p) == join_dot(q),
    ensures
        p == q,
    decreases p.len() + q.len(),
{
    if p.len() == 1 && q.len() == 1 {
        assert(p =~= q);
    } else if p.len() == 1 {
        let y = join_dot(q.drop_last());
        assert(join_dot(q) == y + seq!['.'] + q.last());
        assert(join_dot(q)[y.len() as int] == '.');
        assert(dot_free(p[0]));
    } else if q.len() == 1 {
        let x = join_dot(p.drop_last());
        assert(join_dot(p) == x + seq!['.'] + p.last());
        assert(join_dot(p)[x.len() as int] == '.');
        assert(dot_free(q[0]));
    } else {
        assert(dot_free(p.last()));
        assert(dot_free(q.last()));
        lemma_split_last_dot(join_dot(p.drop_last()), p.last(), join_dot(q.drop_last()), q.last());
        lemma_join_dot_injective(p.drop_last(), q.drop_last());
        assert(p =~= p.drop_last().push(p.last()));
        assert(q =~= q.drop_last().push(q.last()));
    }
}

/// A path of plain keys is determined by its text: the path that
/// `Selector::from_path` reads from the text that `Selector::to_string`
/// writes is the path written.
pub proof fn lemma_path_text_roundtrip(sel: Seq<NodeModel>, read: Seq<NodeModel>)
    requires
        sel.len() >= 1,
        plain_keys(sel),
        read.len() >= 1,
        plain_keys(read),
        join_dot(texts(read)) == join_dot(texts(sel)),
    ensures
        read == sel,
{
    assert forall|i: int| 0 <= i < texts(sel).len() implies dot_free(#[trigger] texts(sel)[i]) by {
        assert(sel[i] is Str && dot_free(node_text(sel[i])));
    }
    assert forall|i: int| 0 <= i < texts(read).len() implies dot_free(
        #[trigger] texts(read)[i],
    ) by {
        assert(read[i] is Str && dot_free(node_text(read[i])));
    }
    lemma_join_dot_injective(texts(read), texts(sel));
    assert forall|i: int| 0 <= i < sel.len() implies read[i] == sel[i] by {
        assert(sel[i] is Str && read[i] is Str);
        assert(texts(read)[i] == texts(sel)[i]);
    }
    assert(read =~= sel);
}

} // verus!
