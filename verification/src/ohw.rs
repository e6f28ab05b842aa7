//! The hardware-monitor sensor tree and its path-query accessor.
//!
//! An external hardware-monitoring tool publishes a recursive tree of
//! sensor nodes.  Nothing about its shape is guaranteed, so every read
//! goes through a small query language: a `|`-separated sequence of
//! segment selectors applied depth-first, where `#k` picks the child at
//! position `k`, `+token` the child whose image URL equals the token
//! exactly, and any other segment the first child whose label contains
//! the segment up to ASCII case.  A step without a match resolves the
//! whole query to "not found" — schema drift yields defaults, never an
//! error.

use vstd::prelude::*;
use crate::milli::{Milli, parse_sensor_value, sensor_value_spec};
use crate::text::{
    chars_of, contains_ci, find_char, parse_uint_spec, replace_spec, vec_chars_eq,
    vec_contains_ci, vec_replace,
};

verus! {

/// One node of the hardware-monitor sensor tree, as the external tool
/// publishes it.  The field names follow its wire format.
#[derive(Debug)]
#[allow(non_snake_case)]
pub struct OHWNode {
    pub Children: Vec<OHWNode>,
    pub ImageURL: String,
    pub Max: String,
    pub Min: String,
    pub Text: String,
    pub Value: String,
    pub id: i64,
}

/// The `|`-separated segments of a path.  An empty path yields one
/// empty segment, and a trailing separator a trailing empty segment.
pub open spec fn split_path(s: Seq<char>) -> Seq<Seq<char>>
    decreases s.len(),
    via split_path_decreases
{
    let d = find_char(s, '|');
    if d == -1 {
        seq![s]
    } else {
        seq![s.subrange(0, d)] + split_path(s.skip(d + 1))
    }
}

#[via_fn]
proof fn split_path_decreases(s: Seq<char>) {
    crate::text::lemma_find_char_range(s, '|');
}

/// The views of a vector of character vectors.
pub open spec fn seg_views(segs: Seq<Vec<char>>) -> Seq<Seq<char>> {
    segs.map_values(|v: Vec<char>| v@)
}

/// The first node of `cs` whose image URL equals `token` exactly.
pub open spec fn first_image_match(cs: Seq<OHWNode>, token: Seq<char>) -> Option<OHWNode>
    decreases cs.len(),
{
    if cs.len() == 0 {
        None
    } else if cs[0].ImageURL@ == token {
        Some(cs[0])
    } else {
        first_image_match(cs.skip(1), token)
    }
}

/// The first node of `cs` whose label contains `seg` up to ASCII case.
pub open spec fn first_label_match(cs: Seq<OHWNode>, seg: Seq<char>) -> Option<OHWNode>
    decreases cs.len(),
{
    if cs.len() == 0 {
        None
    } else if contains_ci(cs[0].Text@, seg) {
        Some(cs[0])
    } else {
        first_label_match(cs.skip(1), seg)
    }
}

/// The child one segment selects from `n`: `#k` the child at position
/// `k` (every `#` stripped before the index is read), `+token` the
/// first child whose image URL is exactly `token` (every `+`
/// stripped), and any other segment the first child whose label
/// contains the segment as a substring up to ASCII case.
pub open spec fn apply_seg(n: OHWNode, seg: Seq<char>) -> Option<OHWNode> {
    if seg.len() >= 1 && seg[0] == '#' {
        match parse_uint_spec(replace_spec(seg, seq!['#'], Seq::<char>::empty()), usize::MAX as int) {
            Some(k) => if k < n.Children@.len() {
                Some(n.Children@[k])
            } else {
                None
            },
            None => None,
        }
    } else if seg.len() >= 1 && seg[0] == '+' {
        first_image_match(n.Children@, replace_spec(seg, seq!['+'], Seq::<char>::empty()))
    } else {
        first_label_match(n.Children@, seg)
    }
}

/// The node a segment sequence selects, applied depth-first from `n`;
/// `None` as soon as one segment finds no match.
pub open spec fn select_spec(n: OHWNode, segs: Seq<Seq<char>>) -> Option<OHWNode>
    decreases segs.len(),
{
    if segs.len() == 0 {
        Some(n)
    } else {
        match apply_seg(n, segs[0]) {
            Some(c) => select_spec(c, segs.drop_first()),
            None => None,
        }
    }
}

/// The node a segment sequence selects from an optional root.
pub open spec fn select_opt_spec(n: Option<OHWNode>, segs: Seq<Seq<char>>) -> Option<OHWNode> {
    match n {
        Some(x) => select_spec(x, segs),
        None => None,
    }
}

/// Splits a path into its `|`-separated segments.
fn split_segments(cs: &Vec<char>) -> (r: Vec<Vec<char>>)
    ensures
        seg_views(r@) == split_path(cs@),
{
    let n = cs.len();
    let mut r: Vec<Vec<char>> = Vec::new();
    let mut start: usize = 0;
    proof {
        assert(cs@.skip(0) =~= cs@);
        assert(seg_views(r@) + split_path(cs@) =~= split_path(cs@));
    }
    loop
        invariant
            start <= n,
            n == cs@.len(),
            split_path(cs@) == seg_views(r@) + split_path(cs@.skip(start as int)),
        decreases n - start,
    {
        let d = crate::text::vec_find_char(cs, '|', start);
        let seg = crate::text::vec_slice(cs, start, d);
        proof {
            let t = cs@.skip(start as int);
            assert(forall|k: int| 0 <= k < t.len() ==> t[k] == cs@[k + start]);
            if d < n {
                crate::text::lemma_find_char_first(t, '|', d - start);
            } else {
                crate::text::lemma_find_char_absent(t, '|');
            }
            assert(t.subrange(0, d - start) =~= cs@.subrange(start as int, d as int));
            if d < n {
                assert(t.skip(d - start + 1) =~= cs@.skip(d + 1));
            }
        }
        let ghost r0 = r@;
        r.push(seg);
        proof {
            assert(seg_views(r@) =~= seg_views(r0).push(seg@));
        }
        if d >= n {
            proof {
                assert(split_path(cs@.skip(start as int)) =~= seq![cs@.skip(start as int)]);
                assert(cs@.skip(start as int) == cs@.subrange(start as int, n as int));
                assert(seg_views(r0) + split_path(cs@.skip(start as int)) =~= seg_views(r@));
            }
            return r;
        }
        proof {
            let t = cs@.skip(start as int);
            assert(split_path(t) == seq![t.subrange(0, d - start)] + split_path(
                t.skip(d - start + 1),
            ));
            assert(seg_views(r0) + (seq![seg@] + split_path(cs@.skip(d + 1))) =~= seg_views(r@)
                + split_path(cs@.skip(d + 1)));
        }
        start = d + 1;
    }
}

/// The first child of `n` whose image URL equals `token`.
pub(crate) fn find_image_child<'a>(n: &'a OHWNode, token: &Vec<char>) -> (r: Option<&'a OHWNode>)
    ensures
        match first_image_match(n.Children@, token@) {
            Some(m) => r matches Some(p) && *p == m,
            None => r is None,
        },
{
    let cnt = n.Children.len();
    let mut j: usize = 0;
    proof {
        assert(n.Children@.skip(0) =~= n.Children@);
    }
    while j < cnt
        invariant
            j <= cnt,
            cnt == n.Children@.len(),
            first_image_match(n.Children@, token@) == first_image_match(
                n.Children@.skip(j as int),
                token@,
            ),
        decreases cnt - j,
    {
        let url = chars_of(n.Children[j].ImageURL.as_str());
        if vec_chars_eq(&url, token) {
            proof {
                assert(n.Children@.skip(j as int)[0] == n.Children@[j as int]);
            }
            return Some(&n.Children[j]);
        }
        proof {
            assert(n.Children@.skip(j as int)[0] == n.Children@[j as int]);
            assert(n.Children@.skip(j as int).skip(1) =~= n.Children@.skip(j + 1));
        }
        j = j + 1;
    }
    None
}

/// The first node of `cs` whose label equals `token` exactly.
pub open spec fn first_text_exact(cs: Seq<OHWNode>, token: Seq<char>) -> Option<OHWNode>
    decreases cs.len(),
{
    if cs.len() == 0 {
        None
    } else if cs[0].Text@ == token {
        Some(cs[0])
    } else {
        first_text_exact(cs.skip(1), token)
    }
}

/// The first child of `n` whose label equals `token` exactly.
pub(crate) fn find_text_child<'a>(n: &'a OHWNode, token: &Vec<char>) -> (r: Option<&'a OHWNode>)
    ensures
        match first_text_exact(n.Children@, token@) {
            Some(m) => r matches Some(p) && *p == m,
            None => r is None,
        },
{
    let cnt = n.Children.len();
    let mut j: usize = 0;
    proof {
        assert(n.Children@.skip(0) =~= n.Children@);
    }
    while j < cnt
        invariant
            j <= cnt,
            cnt == n.Children@.len(),
            first_text_exact(n.Children@, token@) == first_text_exact(
                n.Children@.skip(j as int),
                token@,
            ),
        decreases cnt - j,
    {
        let label = chars_of(n.Children[j].Text.as_str());
        if vec_chars_eq(&label, token) {
            proof {
                assert(n.Children@.skip(j as int)[0] == n.Children@[j as int]);
            }
            return Some(&n.Children[j]);
        }
        proof {
            assert(n.Children@.skip(j as int)[0] == n.Children@[j as int]);
            assert(n.Children@.skip(j as int).skip(1) =~= n.Children@.skip(j + 1));
        }
        j = j + 1;
    }
    None
}

/// The first child of `n` whose label contains `seg` up to ASCII case.
fn find_label_child<'a>(n: &'a OHWNode, seg: &Vec<char>) -> (r: Option<&'a OHWNode>)
    ensures
        match first_label_match(n.Children@, seg@) {
            Some(m) => r matches Some(p) && *p == m,
            None => r is None,
        },
{
    let cnt = n.Children.len();
    let mut j: usize = 0;
    proof {
        assert(n.Children@.skip(0) =~= n.Children@);
    }
    while j < cnt
        invariant
            j <= cnt,
            cnt == n.Children@.len(),
            first_label_match(n.Children@, seg@) == first_label_match(
                n.Children@.skip(j as int),
                seg@,
            ),
        decreases cnt - j,
    {
        let label = chars_of(n.Children[j].Text.as_str());
        if vec_contains_ci(&label, seg) {
            proof {
                assert(n.Children@.skip(j as int)[0] == n.Children@[j as int]);
            }
            return Some(&n.Children[j]);
        }
        proof {
            assert(n.Children@.skip(j as int)[0] == n.Children@[j as int]);
            assert(n.Children@.skip(j as int).skip(1) =~= n.Children@.skip(j + 1));
        }
        j = j + 1;
    }
    None
}

/// Applies one path segment to `n`.
fn apply_seg_exec<'a>(n: &'a OHWNode, seg: &Vec<char>) -> (r: Option<&'a OHWNode>)
    ensures
        match apply_seg(*n, seg@) {
            Some(m) => r matches Some(p) && *p == m,
            None => r is None,
        },
{
    let empty: Vec<char> = Vec::new();
    proof {
        assert(empty@ =~= Seq::<char>::empty());
    }
    if seg.len() >= 1 && seg[0] == '#' {
        let hash: Vec<char> = vec!['#'];
        proof {
            assert(hash@ =~= seq!['#']);
        }
        let stripped = vec_replace(seg, &hash, &empty);
        proof {
            crate::text::lemma_parse_uint_in_range(stripped@, usize::MAX as int);
        }
        match crate::text::parse_usize_vec(&stripped) {
            Some(k) => {
                if k < n.Children.len() {
                    Some(&n.Children[k])
                } else {
                    None
                }
            },
            None => None,
        }
    } else if seg.len() >= 1 && seg[0] == '+' {
        let plus: Vec<char> = vec!['+'];
        proof {
            assert(plus@ =~= seq!['+']);
        }
        let token = vec_replace(seg, &plus, &empty);
        find_image_child(n, &token)
    } else {
        find_label_child(n, seg)
    }
}

/// Resolves a split path from `root`, segment by segment.
fn select_segments<'a>(root: &'a OHWNode, segs: &Vec<Vec<char>>) -> (r: Option<&'a OHWNode>)
    ensures
        match select_spec(*root, seg_views(segs@)) {
            Some(m) => r matches Some(p) && *p == m,
            None => r is None,
        },
{
    let cnt = segs.len();
    let mut cur: &'a OHWNode = root;
    let mut i: usize = 0;
    proof {
        assert(seg_views(segs@).skip(0) =~= seg_views(segs@));
    }
    while i < cnt
        invariant
            i <= cnt,
            cnt == segs@.len(),
            select_spec(*root, seg_views(segs@)) == select_spec(
                *cur,
                seg_views(segs@).skip(i as int),
            ),
        decreases cnt - i,
    {
        proof {
            assert(seg_views(segs@).skip(i as int)[0] == segs@[i as int]@);
            assert(seg_views(segs@).skip(i as int).drop_first() =~= seg_views(segs@).skip(i + 1));
        }
        match apply_seg_exec(cur, &segs[i]) {
            Some(c) => {
                cur = c;
                i = i + 1;
            },
            None => {
                return None;
            },
        }
    }
    Some(cur)
}

/// Resolves a `|`-separated path query from `root`.
fn select_node<'a>(root: &'a OHWNode, path: &str) -> (r: Option<&'a OHWNode>)
    ensures
        match select_spec(*root, split_path(path@)) {
            Some(m) => r matches Some(p) && *p == m,
            None => r is None,
        },
{
    let cs = chars_of(path);
    let segs = split_segments(&cs);
    select_segments(root, &segs)
}

/// Path-query access shared by a tree root and an optional tree root.
pub trait MyNode {
    /// The optional node this receiver stands for.
    spec fn node_spec(&self) -> Option<OHWNode>;

    /// Resolves a `|`-separated path query depth-first; `None` as soon
    /// as one segment finds no match.
    fn select(&self, path: &str) -> (r: Option<&OHWNode>)
        ensures
            match select_opt_spec(self.node_spec(), split_path(path@)) {
                Some(m) => r matches Some(p) && *p == m,
                None => r is None,
            },
    ;

    /// The numeric value of the node a path selects: `None` if the path
    /// finds no node, otherwise the node's value string parsed with
    /// units stripped — zero when that string is not a number.
    fn parse_value_path(&self, path: &str) -> (r: Option<Milli>)
        ensures
            match select_opt_spec(self.node_spec(), split_path(path@)) {
                Some(m) => r matches Some(v) && v.thousandths as int == sensor_value_spec(
                    m.Value@,
                ),
                None => r is None,
            },
    ;

    /// The numeric value of the node a path selects, or zero when the
    /// path finds no node or its value string is not a number.
    fn parse_value_path_def(&self, path: &str) -> (r: Milli)
        ensures
            r.thousandths as int == match select_opt_spec(self.node_spec(), split_path(path@)) {
                Some(m) => sensor_value_spec(m.Value@),
                None => 0,
            },
    ;
}

impl MyNode for OHWNode {
    open spec fn node_spec(&self) -> Option<OHWNode> {
        Some(*self)
    }

    fn select(&self, path: &str) -> (r: Option<&OHWNode>) {
        select_node(self, path)
    }

    fn parse_value_path(&self, path: &str) -> (r: Option<Milli>) {
        match select_node(self, path) {
            Some(node) => Some(parse_sensor_value(node.Value.as_str())),
            None => None,
        }
    }

    fn parse_value_path_def(&self, path: &str) -> (r: Milli) {
        match self.parse_value_path(path) {
            Some(v) => v,
            None => Milli::zero(),
        }
    }
}

impl MyNode for Option<OHWNode> {
    open spec fn node_spec(&self) -> Option<OHWNode> {
        *self
    }

    fn select(&self, path: &str) -> (r: Option<&OHWNode>) {
        match self {
            Some(n) => select_node(n, path),
            None => None,
        }
    }

    fn parse_value_path(&self, path: &str) -> (r: Option<Milli>) {
        match self {
            Some(n) => n.parse_value_path(path),
            None => None,
        }
    }

    fn parse_value_path_def(&self, path: &str) -> (r: Milli) {
        match self.parse_value_path(path) {
            Some(v) => v,
            None => Milli::zero(),
        }
    }
}

/// Path-query short-circuit: once a prefix of the segments fails to
/// resolve, the whole query fails, whatever segments follow.
pub proof fn lemma_select_short_circuit(n: OHWNode, segs1: Seq<Seq<char>>, segs2: Seq<Seq<char>>)
    requires
        select_spec(n, segs1) is None,
    ensures
        select_spec(n, segs1 + segs2) is None,
    decreases segs1.len(),
{
    if segs1.len() > 0 {
        assert((segs1 + segs2)[0] == segs1[0]);
        match apply_seg(n, segs1[0]) {
            Some(c) => {
                assert((segs1 + segs2).drop_first() =~= segs1.drop_first() + segs2);
                lemma_select_short_circuit(c, segs1.drop_first(), segs2);
            },
            None => {},
        }
    }
}

} // verus!
