//! The tag index: collecting every tag of a collection page by page, and
//! the tree that slash-separated tag paths form.
//!
//! The scan stops when the database returns no cursor for a next page, or
//! when a page comes back shorter than asked for; the second rule rests on
//! the database never returning a short page before the last one.
use vstd::prelude::*;
use vstd::string::*;
use crate::memo::strings_view;
use crate::payload::{Payload, get_string_array_field, text_list_field};
use crate::search::PointKey;

verus! {

/// Points asked for in each page of a tag scan.
pub const TAG_PAGE_SIZE: u32 = 100;

/// `a` comes strictly before `b` in lexicographic order of code points
/// (the order of `str`, whose bytes in UTF-8 sort the same way).
pub open spec fn lex_lt(a: Seq<char>, b: Seq<char>) -> bool
    decreases a.len(),
{
    if a.len() == 0 {
        b.len() > 0
    } else if b.len() == 0 {
        false
    } else if a[0] != b[0] {
        (a[0] as u32) < (b[0] as u32)
    } else {
        lex_lt(a.drop_first(), b.drop_first())
    }
}

proof fn lemma_lex_lt_transitive(a: Seq<char>, b: Seq<char>, c: Seq<char>)
    requires
        lex_lt(a, b),
        lex_lt(b, c),
    ensures
        lex_lt(a, c),
    decreases a.len(),
{
    if a.len() > 0 && b.len() > 0 && c.len() > 0 && a[0] == b[0] && b[0] == c[0] {
        lemma_lex_lt_transitive(a.drop_first(), b.drop_first(), c.drop_first());
    }
}

proof fn lemma_lex_lt_irreflexive(a: Seq<char>)
    ensures
        !lex_lt(a, a),
    decreases a.len(),
{
    if a.len() > 0 {
        lemma_lex_lt_irreflexive(a.drop_first());
    }
}

/// Each text comes strictly before the next, so no text repeats.
pub open spec fn strictly_sorted(s: Seq<Seq<char>>) -> bool {
    forall|i: int, j: int| 0 <= i < j < s.len() ==> lex_lt(#[trigger] s[i], #[trigger] s[j])
}

/// Compares two texts: negative, zero or positive as `a` comes before,
/// equals, or comes after `b`.
pub fn compare_text(a: &str, b: &str) -> (r: i8)
    ensures
        (r < 0) == lex_lt(a@, b@),
        (r == 0) == (a@ == b@),
        (r > 0) == lex_lt(b@, a@),
{
    let n = a.unicode_len();
    let m = b.unicode_len();
    let mut i: usize = 0;
    assert(a@.skip(0) =~= a@ && b@.skip(0) =~= b@);
    while i < n && i < m
        invariant
            i <= n,
            i <= m,
            n == a@.len(),
            m == b@.len(),
            a@.subrange(0, i as int) == b@.subrange(0, i as int),
            lex_lt(a@, b@) == lex_lt(a@.skip(i as int), b@.skip(i as int)),
            lex_lt(b@, a@) == lex_lt(b@.skip(i as int), a@.skip(i as int)),
        decreases n - i,
    {
        let x = a.get_char(i);
        let y = b.get_char(i);
        assert(a@.skip(i as int)[0] == x && b@.skip(i as int)[0] == y);
        if x != y {
            assert(a@[i as int] != b@[i as int]);
            if (x as u32) < (y as u32) {
                return -1;
            } else {
                return 1;
            }
        }
        assert(a@.skip(i as int).drop_first() =~= a@.skip(i + 1));
        assert(b@.skip(i as int).drop_first() =~= b@.skip(i + 1));
        assert(a@.subrange(0, i + 1) =~= a@.subrange(0, i as int).push(x));
        assert(b@.subrange(0, i + 1) =~= b@.subrange(0, i as int).push(y));
        i += 1;
    }
    assert(a@.skip(i as int).len() == n - i && b@.skip(i as int).len() == m - i);
    if i == n && i == m {
        assert(a@ =~= a@.subrange(0, i as int));
        assert(b@ =~= b@.subrange(0, i as int));
        0
    } else if i == n {
        assert(a@.len() != b@.len());
        -1
    } else {
        assert(a@.len() != b@.len());
        1
    }
}

/// The first place in a sorted list where `x` stands or would stand, and
/// whether it is there.
fn find_slot(v: &Vec<String>, x: &String) -> (r: (usize, bool))
    ensures
        r.0 <= v@.len(),
        forall|k: int| 0 <= k < r.0 ==> lex_lt(#[trigger] v@[k]@, x@),
        r.1 ==> r.0 < v@.len() && v@[r.0 as int]@ == x@,
        !r.1 ==> (r.0 < v@.len() ==> lex_lt(x@, v@[r.0 as int]@)),
{
    let mut i: usize = 0;
    while i < v.len()
        invariant
            i <= v@.len(),
            forall|k: int| 0 <= k < i ==> lex_lt(#[trigger] v@[k]@, x@),
        decreases v@.len() - i,
    {
        let c = compare_text(v[i].as_str(), x.as_str());
        if c == 0 {
            return (i, true);
        } else if c > 0 {
            return (i, false);
        }
        i += 1;
    }
    (i, false)
}

/// Adds a text to a sorted set of texts.
fn insert_sorted(v: &mut Vec<String>, x: String)
    requires
        strictly_sorted(strings_view(old(v)@)),
    ensures
        strictly_sorted(strings_view(final(v)@)),
        forall|s: Seq<char>|
            strings_view(final(v)@).contains(s) <==> (strings_view(old(v)@).contains(s) || s
                == x@),
        strings_view(final(v)@).to_set() == strings_view(old(v)@).to_set().insert(x@),
{
    let ghost before = strings_view(v@);
    let (slot, found) = find_slot(v, &x);
    if found {
        assert(before[slot as int] == x@);
        assert(before.to_set() =~= before.to_set().insert(x@));
        return;
    }
    let ghost xv = x@;
    v.insert(slot, x);
    let ghost after = strings_view(v@);
    assert(after =~= before.insert(slot as int, xv));
    assert forall|i: int, j: int| 0 <= i < j < after.len() implies lex_lt(
        #[trigger] after[i],
        #[trigger] after[j],
    ) by {
        if i < slot && j == slot {
        } else if i < slot && j > slot {
            assert(after[j] == before[j - 1]);
            if j - 1 > slot {
                lemma_lex_lt_transitive(xv, before[slot as int], before[j - 1]);
            }
            lemma_lex_lt_transitive(before[i], xv, before[j - 1]);
        } else if i == slot {
            assert(after[j] == before[j - 1]);
            if j - 1 > slot {
                lemma_lex_lt_transitive(xv, before[slot as int], before[j - 1]);
            }
        } else if i > slot {
            assert(after[i] == before[i - 1] && after[j] == before[j - 1]);
        } else {
            assert(after[i] == before[i] && after[j] == before[j]);
        }
    }
    assert forall|s: Seq<char>| after.contains(s) <==> (before.contains(s) || s == xv) by {
        if after.contains(s) {
            let k = choose|k: int| 0 <= k < after.len() && after[k] == s;
            if k < slot {
                assert(before[k] == s);
            } else if k > slot {
                assert(before[k - 1] == s);
            }
        }
        if before.contains(s) {
            let k = choose|k: int| 0 <= k < before.len() && before[k] == s;
            if k < slot {
                assert(after[k] == s);
            } else {
                assert(after[k + 1] == s);
            }
        }
        if s == xv {
            assert(after[slot as int] == s);
        }
    }
    assert(after.to_set() =~= before.to_set().insert(xv));
}

/// Adds every text of a list to a sorted set of texts.
fn add_all(v: &mut Vec<String>, items: &Vec<String>)
    requires
        strictly_sorted(strings_view(old(v)@)),
    ensures
        strictly_sorted(strings_view(final(v)@)),
        strings_view(final(v)@).to_set() == strings_view(old(v)@).to_set() + strings_view(
            items@,
        ).to_set(),
{
    let ghost start = strings_view(v@).to_set();
    let ghost all = strings_view(items@);
    let mut j: usize = 0;
    assert(all.take(0).to_set() =~= Set::<Seq<char>>::empty());
    assert(start + Set::<Seq<char>>::empty() =~= start);
    while j < items.len()
        invariant
            j <= items@.len(),
            all == strings_view(items@),
            strictly_sorted(strings_view(v@)),
            strings_view(v@).to_set() == start + all.take(j as int).to_set(),
        decreases items@.len() - j,
    {
        let ghost prev = strings_view(v@);
        insert_sorted(v, items[j].clone());
        proof {
            let next = all.take(j + 1);
            assert(next =~= all.take(j as int).push(all[j as int]));
            assert(strings_view(v@).to_set() =~= prev.to_set().insert(all[j as int]));
            assert forall|x: Seq<char>| next.to_set().contains(x) == (all.take(j as int).to_set().contains(x) || x == all[j as int]) by {
                if next.contains(x) {
                    let q = choose|q: int| 0 <= q < next.len() && #[trigger] next[q] == x;
                    if q < j {
                        assert(all.take(j as int)[q] == x);
                    }
                }
                if all.take(j as int).contains(x) {
                    let t = all.take(j as int);
                    let q = choose|q: int| 0 <= q < t.len() && #[trigger] t[q] == x;
                    assert(next[q] == x);
                }
                if x == all[j as int] {
                    assert(next[j as int] == x);
                }
            }
            assert(strings_view(v@).to_set() =~= start + next.to_set());
        }
        j += 1;
    }
    assert(all.take(j as int) =~= all);
}

/// The tags that a point carries; a point whose tags do not decode adds none.
pub open spec fn point_tags(p: Payload) -> Seq<Seq<char>> {
    match text_list_field(p.model(), "tags"@) {
        Ok(t) => t,
        Err(_) => Seq::empty(),
    }
}

/// The tags that the first `n` points of a page carry.
pub open spec fn tags_upto(page: Seq<Payload>, n: int) -> Set<Seq<char>>
    decreases n,
{
    if n <= 0 {
        Set::empty()
    } else {
        tags_upto(page, n - 1) + point_tags(page[n - 1]).to_set()
    }
}

/// The tags that the points of a page carry.
pub open spec fn page_tags(page: Seq<Payload>) -> Set<Seq<char>> {
    tags_upto(page, page.len() as int)
}

/// The state of a scan over every point of a collection, collecting tags.
///
/// The tags are kept in a `Vec` sorted without repeats rather than a
/// `HashSet<String>`: vstd specifies hash sets, but with `String` keys
/// nothing about their contents can be proved, and the result has to come
/// out sorted anyway.
#[derive(Debug)]
pub struct TagScan {
    /// The tags met so far, sorted and without repeats.
    pub tags: Vec<String>,
    /// Where the next page starts; `None` before the first page.
    pub cursor: Option<PointKey>,
}

impl TagScan {
    pub open spec fn wf(&self) -> bool {
        strictly_sorted(strings_view(self.tags@))
    }

    pub fn new() -> (r: TagScan)
        ensures
            r.wf(),
            r.tags@.len() == 0,
            r.cursor is None,
    {
        TagScan { tags: Vec::new(), cursor: None }
    }

    /// Takes in one page of `limit` points asked for: adds the tags of its
    /// points, keeps the cursor of the next page, and tells whether
    /// another page is to be asked for: only when the database gave a
    /// cursor and the page was full.
    pub fn absorb_page(&mut self, page: &Vec<Payload>, next_offset: Option<PointKey>, limit: u32) -> (more: bool)
        requires
            old(self).wf(),
        ensures
            final(self).wf(),
            strings_view(final(self).tags@).to_set() == strings_view(old(self).tags@).to_set()
                + page_tags(page@),
            more == (next_offset is Some && page@.len() >= limit),
            final(self).cursor == next_offset,
    {
        let ghost start = strings_view(self.tags@).to_set();
        let mut i: usize = 0;
        assert(start + Set::<Seq<char>>::empty() =~= start);
        while i < page.len()
            invariant
                i <= page@.len(),
                self.wf(),
                strings_view(self.tags@).to_set() == start + tags_upto(page@, i as int),
            decreases page@.len() - i,
        {
            let ghost pt = point_tags(page@[i as int]);
            match get_string_array_field(&page[i], "tags") {
                Ok(tags) => {
                    add_all(&mut self.tags, &tags);
                    assert(pt == strings_view(tags@));
                },
                Err(_) => {
                    assert(pt.to_set() =~= Set::<Seq<char>>::empty());
                },
            }
            assert(strings_view(self.tags@).to_set() =~= start + tags_upto(page@, i + 1));
            i += 1;
        }
        let more = match &next_offset {
            Some(_) => page.len() >= limit as usize,
            None => false,
        };
        self.cursor = next_offset;
        more
    }

    /// The tags collected, sorted and without repeats.
    pub fn into_sorted(self) -> (r: Vec<String>)
        requires
            self.wf(),
        ensures
            strictly_sorted(strings_view(r@)),
            strings_view(r@) == strings_view(self.tags@),
    {
        self.tags
    }
}

/// Slash-separated segments joined back into one path.
pub open spec fn joined(parts: Seq<Seq<char>>) -> Seq<char>
    decreases parts.len(),
{
    if parts.len() == 0 {
        Seq::empty()
    } else if parts.len() == 1 {
        parts[0]
    } else {
        joined(parts.drop_last()) + seq!['/'] + parts.last()
    }
}

proof fn lemma_joined_push(parts: Seq<Seq<char>>, c: char)
    requires
        parts.len() >= 1,
    ensures
        joined(parts.drop_last().push(parts.last().push(c))) == joined(parts).push(c),
{
    let q = parts.drop_last().push(parts.last().push(c));
    assert(q.drop_last() =~= parts.drop_last());
    if parts.len() == 1 {
        assert(joined(parts) == parts[0]);
    } else {
        assert(joined(q) =~= joined(parts).push(c));
    }
}

/// The segments of a tag path, split at each `/`: joined back with `/`
/// they give the tag, and none holds a `/`.
pub fn split_tag(tag: &str) -> (r: Vec<String>)
    ensures
        r@.len() >= 1,
        joined(strings_view(r@)) == tag@,
        forall|i: int| 0 <= i < r@.len() ==> !(#[trigger] r@[i])@.contains('/'),
{
    let n = tag.unicode_len();
    let mut r: Vec<String> = Vec::new();
    let mut start: usize = 0;
    let mut i: usize = 0;
    while i < n
        invariant
            n == tag@.len(),
            start <= i <= n,
            joined(strings_view(r@).push(tag@.subrange(start as int, i as int))) == tag@.subrange(
                0,
                i as int,
            ),
            forall|k: int| 0 <= k < r@.len() ==> !(#[trigger] r@[k])@.contains('/'),
            !tag@.subrange(start as int, i as int).contains('/'),
        decreases n - i,
    {
        let c = tag.get_char(i);
        let ghost segs = strings_view(r@).push(tag@.subrange(start as int, i as int));
        if c == '/' {
            let seg = String::from_str(tag.substring_char(start, i));
            r.push(seg);
            let ghost now = strings_view(r@).push(tag@.subrange((i + 1) as int, (i + 1) as int));
            assert(now.drop_last() =~= segs);
            assert(now.last() =~= Seq::<char>::empty());
            assert(joined(now) =~= tag@.subrange(0, i + 1));
            start = i + 1;
        } else {
            proof {
                assert(tag@.subrange(start as int, i + 1) =~= tag@.subrange(start as int, i as int).push(c));
                assert(segs.drop_last() =~= strings_view(r@));
                assert(segs.last() == tag@.subrange(start as int, i as int));
                lemma_joined_push(segs, c);
                assert(segs.drop_last().push(segs.last().push(c)) =~= strings_view(r@).push(
                    tag@.subrange(start as int, i + 1),
                ));
                assert(tag@.subrange(0, i + 1) =~= tag@.subrange(0, i as int).push(c));
                let grown = tag@.subrange(start as int, i + 1);
                assert(grown =~= tag@.subrange(start as int, i as int).push(c));
                assert forall|k: int| 0 <= k < grown.len() implies #[trigger] grown[k] != '/' by {
                    if k < grown.len() - 1 {
                        assert(grown[k] == tag@.subrange(start as int, i as int)[k]);
                    }
                }
            }
        }
        i += 1;
    }
    let ghost before = strings_view(r@);
    let last = String::from_str(tag.substring_char(start, n));
    r.push(last);
    assert(tag@.subrange(0, n as int) =~= tag@);
    assert(strings_view(r@) =~= before.push(tag@.subrange(start as int, n as int)));
    r
}

/// A node of the tag tree: one path segment, the full path to it, and
/// the nodes below it, ordered by name.
///
/// Each level is a `Vec` ordered by name rather than a `HashMap` keyed by
/// it, for the same reason as in `TagScan`: a map with `String` keys
/// proves nothing about its contents, and each level is sorted for output.
#[derive(Debug)]
pub struct TagNode {
    pub name: String,
    pub path: String,
    pub children: Vec<TagNode>,
}

pub struct TagsResponse {
    pub tags: Vec<TagNode>,
}

pub open spec fn node_names(nodes: Seq<TagNode>) -> Seq<Seq<char>> {
    nodes.map_values(|n: TagNode| n.name@)
}

pub open spec fn node_labels(nodes: Seq<TagNode>) -> Seq<(Seq<char>, Seq<char>)> {
    nodes.map_values(|n: TagNode| (n.name@, n.path@))
}

/// Each level of the tree, from these nodes down `depth` levels, is
/// ordered by name without repeats.
pub open spec fn levels_sorted(nodes: Seq<TagNode>, depth: nat) -> bool
    decreases depth,
{
    strictly_sorted(node_names(nodes)) && (depth > 0 ==> forall|i: int|
        0 <= i < nodes.len() ==> levels_sorted(#[trigger] nodes[i].children@, (depth - 1) as nat))
}

proof fn lemma_no_levels_sorted(nodes: Seq<TagNode>, depth: nat)
    requires
        nodes.len() == 0,
    ensures
        levels_sorted(nodes, depth),
{
    assert(node_names(nodes) =~= Seq::<Seq<char>>::empty());
}

/// The path of a node named `name` below a node of path `parent`, or at
/// the top level where there is no parent.
pub open spec fn child_path(parent: Option<Seq<char>>, name: Seq<char>) -> Seq<char> {
    match parent {
        Some(p) => p + seq!['/'] + name,
        None => name,
    }
}

/// Down `depth` levels from these nodes, each node's path is its
/// parent's path, a `/` and its own name (its name alone at the top).
pub open spec fn level_paths(nodes: Seq<TagNode>, parent: Option<Seq<char>>, depth: nat) -> bool
    decreases depth,
{
    forall|i: int|
        0 <= i < nodes.len() ==> (#[trigger] nodes[i]).path@ == child_path(parent, nodes[i].name@)
            && (depth > 0 ==> level_paths(
            nodes[i].children@,
            Some(nodes[i].path@),
            (depth - 1) as nat,
        ))
}

/// The path of the node above the segment at `depth`.
pub open spec fn prefix_path(parts: Seq<Seq<char>>, depth: int) -> Option<Seq<char>> {
    if depth <= 0 {
        None
    } else {
        Some(joined(parts.take(depth)))
    }
}

/// Following `parts` from `depth` on, one segment per level, passes from
/// these nodes through a node named by each segment whose path is the
/// segments up to it joined with `/`.
pub open spec fn reaches(nodes: Seq<TagNode>, parts: Seq<Seq<char>>, depth: int) -> bool
    decreases parts.len() - depth,
{
    depth < parts.len() ==> exists|i: int|
        0 <= i < nodes.len() && (#[trigger] nodes[i]).name@ == parts[depth] && nodes[i].path@
            == joined(parts.take(depth + 1)) && (depth + 1 < parts.len() ==> reaches(
            nodes[i].children@,
            parts,
            depth + 1,
        ))
}

/// Down `depth` levels from these nodes, every node's path is in `allowed`.
pub open spec fn paths_within(nodes: Seq<TagNode>, allowed: Set<Seq<char>>, depth: nat) -> bool
    decreases depth,
{
    forall|i: int|
        0 <= i < nodes.len() ==> allowed.contains((#[trigger] nodes[i]).path@) && (depth > 0
            ==> paths_within(nodes[i].children@, allowed, (depth - 1) as nat))
}

/// Every path of the segments of `parts` past `depth` is in `allowed`.
pub open spec fn prefixes_in(parts: Seq<Seq<char>>, allowed: Set<Seq<char>>, depth: int) -> bool {
    forall|m: int| depth < m <= parts.len() ==> allowed.contains(#[trigger] joined(parts.take(m)))
}

proof fn lemma_prefix_step(parts: Seq<Seq<char>>, depth: int)
    requires
        0 <= depth < parts.len(),
    ensures
        joined(parts.take(depth + 1)) == child_path(prefix_path(parts, depth), parts[depth]),
        prefix_path(parts, depth + 1) == Some(joined(parts.take(depth + 1))),
{
    let t = parts.take(depth + 1);
    assert(t.drop_last() =~= parts.take(depth));
    assert(t.last() == parts[depth]);
}

proof fn lemma_no_level_paths(nodes: Seq<TagNode>, parent: Option<Seq<char>>, depth: nat)
    requires
        nodes.len() == 0,
    ensures
        level_paths(nodes, parent, depth),
{
}

/// The path of the first `depth + 1` segments.
fn join_prefix(parts: &Vec<String>, depth: usize) -> (r: String)
    requires
        depth < parts@.len(),
    ensures
        r@ == joined(strings_view(parts@).take(depth + 1)),
{
    let len = parts.len();
    let mut r = parts[0].clone();
    let mut k: usize = 1;
    assert(strings_view(parts@).take(1) =~= seq![parts@[0]@]);
    while k <= depth
        invariant
            1 <= k <= depth + 1,
            depth < parts@.len(),
            len == parts@.len(),
            r@ == joined(strings_view(parts@).take(k as int)),
        decreases depth + 1 - k,
    {
        proof {
            reveal_strlit("/");
        }
        r.append("/");
        r.append(parts[k].as_str());
        assert(k < parts@.len());
        assert(strings_view(parts@).take(k + 1).drop_last() =~= strings_view(parts@).take(k as int));
        k += 1;
    }
    r
}

/// The first place in a list of nodes, ordered by name, where `name`
/// stands or would stand, and whether it is there.
fn find_node(nodes: &Vec<TagNode>, name: &String) -> (r: (usize, bool))
    ensures
        r.0 <= nodes@.len(),
        forall|k: int| 0 <= k < r.0 ==> lex_lt(#[trigger] nodes@[k].name@, name@),
        r.1 ==> r.0 < nodes@.len() && nodes@[r.0 as int].name@ == name@,
        !r.1 ==> (r.0 < nodes@.len() ==> lex_lt(name@, nodes@[r.0 as int].name@)),
{
    let mut i: usize = 0;
    while i < nodes.len()
        invariant
            i <= nodes@.len(),
            forall|k: int| 0 <= k < i ==> lex_lt(#[trigger] nodes@[k].name@, name@),
        decreases nodes@.len() - i,
    {
        let c = compare_text(nodes[i].name.as_str(), name.as_str());
        if c == 0 {
            return (i, true);
        } else if c > 0 {
            return (i, false);
        }
        i += 1;
    }
    (i, false)
}

/// Adds the segments of `parts` from `depth` on below `nodes`: the
/// segment at `depth` gets a node at this level (made, with the path of
/// the segments up to it, where none of that name stands), and the rest go
/// below that node. A level ordered by name stays ordered.
pub fn insert_tag_path(nodes: &mut Vec<TagNode>, parts: &Vec<String>, depth: usize)
    ensures
        depth >= parts@.len() ==> node_labels(final(nodes)@) == node_labels(old(nodes)@),
        depth < parts@.len() ==> {
            ||| node_labels(final(nodes)@) == node_labels(old(nodes)@) && node_names(
                old(nodes)@,
            ).contains(parts@[depth as int]@)
            ||| exists|slot: int|
                0 <= slot <= old(nodes)@.len() && node_labels(final(nodes)@) == #[trigger] node_labels(
                    old(nodes)@,
                ).insert(slot, (parts@[depth as int]@, joined(strings_view(parts@).take(depth + 1))))
        },
        strictly_sorted(node_names(old(nodes)@)) ==> strictly_sorted(node_names(final(nodes)@)),
        forall|d: nat|
            levels_sorted(old(nodes)@, d) ==> #[trigger] levels_sorted(final(nodes)@, d),
        forall|d: nat|
            level_paths(old(nodes)@, prefix_path(strings_view(parts@), depth as int), d)
                ==> #[trigger] level_paths(
                final(nodes)@,
                prefix_path(strings_view(parts@), depth as int),
                d,
            ),
        forall|q: Seq<Seq<char>>, e: int|
            reaches(old(nodes)@, q, e) ==> #[trigger] reaches(final(nodes)@, q, e),
        forall|allowed: Set<Seq<char>>, d: nat|
            paths_within(old(nodes)@, allowed, d) && prefixes_in(
                strings_view(parts@),
                allowed,
                depth as int,
            ) ==> #[trigger] paths_within(final(nodes)@, allowed, d),
        depth < parts@.len() && (forall|d: nat|
            level_paths(old(nodes)@, prefix_path(strings_view(parts@), depth as int), d))
            ==> reaches(final(nodes)@, strings_view(parts@), depth as int),
    decreases parts@.len() - depth,
{
    if depth >= parts.len() {
        return;
    }
    let ghost old_nodes = nodes@;
    let ghost before = node_names(nodes@);
    let ghost labels = node_labels(nodes@);
    let name = parts[depth].clone();
    let (slot, found) = find_node(nodes, &name);
    if !found {
        let path = join_prefix(parts, depth);
        let ghost nv = name@;
        let ghost pv = path@;
        nodes.insert(slot, TagNode { name, path, children: Vec::new() });
        let ghost after = node_names(nodes@);
        assert(after =~= before.insert(slot as int, nv));
        assert(node_labels(nodes@) =~= labels.insert(slot as int, (nv, pv)));
        proof {
            if strictly_sorted(before) {
                assert forall|i: int, j: int| 0 <= i < j < after.len() implies lex_lt(
                    #[trigger] after[i],
                    #[trigger] after[j],
                ) by {
                    if i < slot && j == slot {
                    } else if i < slot && j > slot {
                        assert(after[j] == before[j - 1]);
                        if j - 1 > slot {
                            lemma_lex_lt_transitive(nv, before[slot as int], before[j - 1]);
                        }
                        lemma_lex_lt_transitive(before[i], nv, before[j - 1]);
                    } else if i == slot {
                        assert(after[j] == before[j - 1]);
                        if j - 1 > slot {
                            lemma_lex_lt_transitive(nv, before[slot as int], before[j - 1]);
                        }
                    } else if i > slot {
                        assert(after[i] == before[i - 1] && after[j] == before[j - 1]);
                    } else {
                        assert(after[i] == before[i] && after[j] == before[j]);
                    }
                }
            }
        }
        proof {
            if before.contains(nv) {
                let k = choose|k: int| 0 <= k < before.len() && before[k] == nv;
                if k < slot {
                    lemma_lex_lt_irreflexive(nv);
                } else if strictly_sorted(before) {
                    if k > slot {
                        lemma_lex_lt_transitive(nv, before[slot as int], before[k]);
                    }
                    lemma_lex_lt_irreflexive(nv);
                }
            }
        }
    } else {
        assert(before[slot as int] == parts@[depth as int]@);
    }
    let ghost mid = node_labels(nodes@);
    let ghost mid_names = node_names(nodes@);
    let ghost mid_nodes = nodes@;
    proof {
        if !found {
            lemma_no_levels_sorted(mid_nodes[slot as int].children@, 0);
            assert forall|k: nat| #[trigger] levels_sorted(mid_nodes[slot as int].children@, k) by {
                lemma_no_levels_sorted(mid_nodes[slot as int].children@, k);
            }
            assert forall|i: int| 0 <= i < mid_nodes.len() && i != slot implies #[trigger] mid_nodes[i]
                == old_nodes[if i < slot { i } else { i - 1 }] by {
            }
        } else {
            assert(mid_nodes == old_nodes);
        }
    }
    if depth + 1 < parts.len() {
        let mut node = nodes.remove(slot);
        let ghost before_children = node.children@;
        insert_tag_path(&mut node.children, parts, depth + 1);
        let ghost done = node;
        nodes.insert(slot, node);
        assert(nodes@ =~= mid_nodes.update(slot as int, done));
        assert(node_labels(nodes@) =~= mid);
        assert(node_names(nodes@) =~= mid_names);
        proof {
            assert(before_children == mid_nodes[slot as int].children@);
            assert forall|k: nat| levels_sorted(before_children, k) implies #[trigger] levels_sorted(
                done.children@,
                k,
            ) by {
            }
            let pp = strings_view(parts@);
            let pfx1 = prefix_path(pp, depth + 1);
            assert forall|k: nat| level_paths(before_children, pfx1, k) implies #[trigger] level_paths(
                nodes@[slot as int].children@,
                pfx1,
                k,
            ) by {
            }
            assert forall|q: Seq<Seq<char>>, e: int| reaches(before_children, q, e) implies #[trigger] reaches(
                nodes@[slot as int].children@,
                q,
                e,
            ) by {
            }
            assert forall|allowed: Set<Seq<char>>, k: nat|
                paths_within(before_children, allowed, k) && prefixes_in(pp, allowed, depth + 1)
                implies #[trigger] paths_within(nodes@[slot as int].children@, allowed, k) by {
            }
            assert forall|i: int| 0 <= i < nodes@.len() && i != slot implies #[trigger] nodes@[i]
                == mid_nodes[i] by {
            }
        }
    } else {
        proof {
            assert(nodes@ == mid_nodes);
        }
    }
    proof {
        let fin = nodes@;
        let pp = strings_view(parts@);
        let pfx = prefix_path(pp, depth as int);
        let pfx1 = prefix_path(pp, depth + 1);
        let ms = mid_nodes[slot as int];
        let fs = fin[slot as int];
        lemma_prefix_step(pp, depth as int);
        assert(pp[depth as int] == parts@[depth as int]@);
        assert(fin.len() == mid_nodes.len());
        assert(fs.name@ == ms.name@ && fs.path@ == ms.path@) by {
            assert(node_labels(fin)[slot as int] == node_labels(mid_nodes)[slot as int]);
        }
        assert(ms.name@ == pp[depth as int]);
        if !found {
            assert(ms.path@ == joined(pp.take(depth + 1)));
            assert(ms.children@.len() == 0);
            assert forall|k: nat| #[trigger] level_paths(ms.children@, pfx1, k) by {
                lemma_no_level_paths(ms.children@, pfx1, k);
            }
        } else {
            assert(ms == old_nodes[slot as int]);
        }
        // The children of the node at `slot` only gain paths.
        assert forall|k: nat| level_paths(ms.children@, pfx1, k) implies #[trigger] level_paths(
            fs.children@,
            pfx1,
            k,
        ) by {
        }
        assert forall|q: Seq<Seq<char>>, e: int| reaches(ms.children@, q, e) implies #[trigger] reaches(
            fs.children@,
            q,
            e,
        ) by {
        }
        assert forall|allowed: Set<Seq<char>>, k: nat|
            paths_within(ms.children@, allowed, k) && prefixes_in(pp, allowed, depth + 1)
            implies #[trigger] paths_within(fs.children@, allowed, k) by {
        }
        if !found {
            assert forall|allowed: Set<Seq<char>>, k: nat| #[trigger] paths_within(ms.children@, allowed, k) by {
            }
        }
        assert forall|allowed: Set<Seq<char>>, d: nat|
            paths_within(old_nodes, allowed, d) && prefixes_in(pp, allowed, depth as int)
            implies #[trigger] paths_within(fin, allowed, d) by {
            assert forall|i: int| 0 <= i < fin.len() implies allowed.contains(
                (#[trigger] fin[i]).path@,
            ) && (d > 0 ==> paths_within(fin[i].children@, allowed, (d - 1) as nat)) by {
                if i != slot {
                    let j = if found || i < slot { i } else { i - 1 };
                    assert(fin[i] == mid_nodes[i]);
                    assert(mid_nodes[i] == old_nodes[j]);
                    assert(allowed.contains(old_nodes[j].path@));
                } else {
                    if found {
                        assert(allowed.contains(old_nodes[slot as int].path@));
                    } else {
                        assert(allowed.contains(joined(pp.take(depth + 1))));
                    }
                    if d > 0 {
                        let k = (d - 1) as nat;
                        if found {
                            assert(paths_within(old_nodes[slot as int].children@, allowed, k));
                        }
                        assert(paths_within(ms.children@, allowed, k));
                        assert(prefixes_in(pp, allowed, depth + 1));
                        assert(paths_within(fs.children@, allowed, k));
                    }
                }
            }
        }
        assert forall|d: nat| level_paths(old_nodes, pfx, d) implies #[trigger] level_paths(fin, pfx, d) by {
            assert forall|i: int| 0 <= i < fin.len() implies (#[trigger] fin[i]).path@ == child_path(
                pfx,
                fin[i].name@,
            ) && (d > 0 ==> level_paths(fin[i].children@, Some(fin[i].path@), (d - 1) as nat)) by {
                if i != slot {
                    let j = if found || i < slot { i } else { i - 1 };
                    assert(fin[i] == mid_nodes[i]);
                    assert(mid_nodes[i] == old_nodes[j]);
                    assert(old_nodes[j].path@ == child_path(pfx, old_nodes[j].name@));
                } else {
                    if found {
                        assert(old_nodes[slot as int].path@ == child_path(pfx, ms.name@));
                    }
                    assert(fs.path@ == joined(pp.take(depth + 1)));
                    if d > 0 {
                        let k = (d - 1) as nat;
                        if found {
                            assert(level_paths(old_nodes[slot as int].children@, Some(ms.path@), k));
                        }
                        assert(level_paths(ms.children@, pfx1, k));
                        assert(level_paths(fs.children@, pfx1, k));
                    }
                }
            }
        }
        assert forall|q: Seq<Seq<char>>, e: int| reaches(old_nodes, q, e) implies #[trigger] reaches(
            fin,
            q,
            e,
        ) by {
            if e < q.len() {
                let i = choose|i: int|
                    0 <= i < old_nodes.len() && (#[trigger] old_nodes[i]).name@ == q[e]
                        && old_nodes[i].path@ == joined(q.take(e + 1)) && (e + 1 < q.len()
                        ==> reaches(old_nodes[i].children@, q, e + 1));
                let j = if found || i < slot { i } else { i + 1 };
                if j != slot {
                    assert(fin[j] == mid_nodes[j]);
                    assert(mid_nodes[j] == old_nodes[i]);
                } else {
                    assert(ms == old_nodes[i]);
                    if e + 1 < q.len() {
                        assert(reaches(fs.children@, q, e + 1));
                    }
                }
                assert(0 <= j < fin.len() && fin[j].name@ == q[e] && fin[j].path@ == joined(
                    q.take(e + 1),
                ) && (e + 1 < q.len() ==> reaches(fin[j].children@, q, e + 1)));
            }
        }
        if depth < parts@.len() && (forall|d: nat| #[trigger]
            level_paths(old_nodes, pfx, d)) {
            if found {
                assert(level_paths(old_nodes, pfx, 0));
                assert(old_nodes[slot as int].path@ == child_path(pfx, ms.name@));
                assert forall|k: nat| #[trigger] level_paths(ms.children@, pfx1, k) by {
                    assert(level_paths(old_nodes, pfx, k + 1));
                    assert(level_paths(old_nodes[slot as int].children@, Some(ms.path@), k));
                }
            }
            assert(fs.path@ == joined(pp.take(depth + 1)));
            if depth + 1 < parts@.len() {
                assert(reaches(fs.children@, pp, depth + 1));
            }
            assert(fin[slot as int].name@ == pp[depth as int]);
            assert(reaches(fin, pp, depth as int));
        }
    }
    proof {
        let fin = nodes@;
        assert forall|d: nat| levels_sorted(old_nodes, d) implies #[trigger] levels_sorted(fin, d) by {
            assert(strictly_sorted(node_names(old_nodes)));
            if d > 0 {
                assert forall|i: int| 0 <= i < fin.len() implies levels_sorted(
                    #[trigger] fin[i].children@,
                    (d - 1) as nat,
                ) by {
                    let k = (d - 1) as nat;
                    let j = if found || i < slot { i } else { i - 1 };
                    if found || i != slot {
                        assert(mid_nodes[i] == old_nodes[j]);
                        assert(levels_sorted(old_nodes[j].children@, k));
                    } else {
                        assert(levels_sorted(mid_nodes[slot as int].children@, k));
                    }
                    assert(levels_sorted(mid_nodes[i].children@, k));
                }
            }
        }
    }
    proof {
        if !found {
            assert(node_labels(nodes@) == labels.insert(
                slot as int,
                (parts@[depth as int]@, joined(strings_view(parts@).take(depth + 1))),
            ));
        } else {
            assert(before.contains(parts@[depth as int]@));
        }
    }
}

/// The tag tree of a list of tag paths. The top level holds one node per
/// distinct first segment, ordered by name, each with its segment as its
/// path; the order of the input does not matter.
pub fn build_tag_tree(tags: Vec<String>) -> (r: Vec<TagNode>)
    ensures
        strictly_sorted(node_names(r@)),
        forall|d: nat| #[trigger] levels_sorted(r@, d),
        forall|d: nat| #[trigger] level_paths(r@, None, d),
        forall|i: int| 0 <= i < tags@.len() ==> #[trigger] tag_reached(r@, tags@[i]@),
        forall|d: nat| #[trigger] paths_within(r@, tag_prefixes(strings_view(tags@)), d),
        node_names(r@).to_set() == first_segments(strings_view(tags@)),
        forall|i: int| 0 <= i < r@.len() ==> (#[trigger] r@[i]).path@ == r@[i].name@,
{
    let mut root: Vec<TagNode> = Vec::new();
    let mut i: usize = 0;
    assert(node_names(root@).to_set() =~= Set::<Seq<char>>::empty());
    assert forall|d: nat| #[trigger] levels_sorted(root@, d) by {
        lemma_no_levels_sorted(root@, d);
    }
    assert forall|d: nat| #[trigger] level_paths(root@, None, d) by {
        lemma_no_level_paths(root@, None, d);
    }
    assert forall|d: nat| #[trigger] paths_within(root@, tag_prefixes(strings_view(tags@)), d) by {
    }
    while i < tags.len()
        invariant
            i <= tags@.len(),
            strictly_sorted(node_names(root@)),
            forall|d: nat| #[trigger] levels_sorted(root@, d),
            forall|d: nat| #[trigger] level_paths(root@, None, d),
            forall|k: int| 0 <= k < i ==> #[trigger] tag_reached(root@, tags@[k]@),
            forall|d: nat| #[trigger] paths_within(root@, tag_prefixes(strings_view(tags@)), d),
            node_names(root@).to_set() == first_segments(strings_view(tags@).take(i as int)),
            forall|k: int| 0 <= k < root@.len() ==> (#[trigger] root@[k]).path@ == root@[k].name@,
        decreases tags@.len() - i,
    {
        let parts = split_tag(tags[i].as_str());
        proof {
            lemma_first_segment(strings_view(parts@), tags@[i as int]@);
        }
        let ghost labels = node_labels(root@);
        let ghost names = node_names(root@);
        let ghost seg = parts@[0]@;
        let ghost root_before = root@;
        proof {
            let pp = strings_view(parts@);
            let all = strings_view(tags@);
            assert(all[i as int] == tags@[i as int]@);
            assert(is_split_of(pp, all[i as int]));
            assert forall|m: int| 0 < m <= pp.len() implies tag_prefixes(all).contains(
                #[trigger] joined(pp.take(m)),
            ) by {
                assert(0 <= i < all.len() && is_split_of(pp, all[i as int]) && 1 <= m <= pp.len());
            }
            assert(prefixes_in(pp, tag_prefixes(all), 0));
        }
        insert_tag_path(&mut root, &parts, 0);
        proof {
            let pp = strings_view(parts@);
            assert(prefix_path(pp, 0) == None::<Seq<char>>);
            assert(is_split_of(pp, tags@[i as int]@));
            assert(reaches(root@, pp, 0));
            assert forall|k: int| 0 <= k < i + 1 implies #[trigger] tag_reached(root@, tags@[k]@) by {
                if k < i {
                    assert(tag_reached(root_before, tags@[k]@));
                    let q = choose|q: Seq<Seq<char>>|
                        #[trigger] is_split_of(q, tags@[k]@) && reaches(root_before, q, 0);
                    assert(reaches(root@, q, 0));
                } else {
                    assert(is_split_of(pp, tags@[k]@) && reaches(root@, pp, 0));
                }
            }
            assert(strings_view(parts@).take(1) =~= seq![seg]);
            assert(node_names(root@) =~= node_labels(root@).map_values(
                |l: (Seq<char>, Seq<char>)| l.0,
            ));
            assert(names =~= labels.map_values(|l: (Seq<char>, Seq<char>)| l.0));
            if node_labels(root@) != labels {
                let slot = choose|slot: int|
                    0 <= slot <= labels.len() && node_labels(root@) == #[trigger] labels.insert(
                        slot,
                        (seg, joined(strings_view(parts@).take(1))),
                    );
                let l2 = node_labels(root@);
                assert(node_names(root@) =~= names.insert(slot, seg));
                assert forall|s: Seq<char>| #[trigger] node_names(root@).contains(s) <==> (names.contains(s) || s == seg) by {
                    if node_names(root@).contains(s) {
                        let q = choose|q: int| 0 <= q < root@.len() && node_names(root@)[q] == s;
                        if q < slot {
                            assert(names[q] == s);
                        } else if q > slot {
                            assert(names[q - 1] == s);
                        }
                    }
                    if names.contains(s) {
                        let q = choose|q: int| 0 <= q < names.len() && names[q] == s;
                        if q < slot {
                            assert(node_names(root@)[q] == s);
                        } else {
                            assert(node_names(root@)[q + 1] == s);
                        }
                    }
                    if s == seg {
                        assert(node_names(root@)[slot] == s);
                    }
                }
                assert forall|x: Seq<char>| #[trigger] node_names(root@).to_set().contains(x) == names.to_set().insert(seg).contains(x) by {
                    assert(node_names(root@).contains(x) <==> (names.contains(x) || x == seg));
                }
                assert(node_names(root@).to_set() =~= names.to_set().insert(seg));
                assert forall|k: int| 0 <= k < root@.len() implies (#[trigger] root@[k]).path@
                    == root@[k].name@ by {
                    assert(l2[k] == (root@[k].name@, root@[k].path@));
                    if k < slot {
                        assert(labels[k] == l2[k]);
                    } else if k > slot {
                        assert(labels[k - 1] == l2[k]);
                    }
                }
            } else {
                assert forall|k: int| 0 <= k < root@.len() implies (#[trigger] root@[k]).path@
                    == root@[k].name@ by {
                    assert(labels[k] == (root@[k].name@, root@[k].path@));
                }
                assert(node_names(root@) =~= names);
                if exists|slot: int|
                    0 <= slot <= labels.len() && node_labels(root@) == #[trigger] labels.insert(
                        slot,
                        (seg, joined(strings_view(parts@).take(1))),
                    ) {
                    let slot = choose|slot: int|
                        0 <= slot <= labels.len() && node_labels(root@) == #[trigger] labels.insert(
                            slot,
                            (seg, joined(strings_view(parts@).take(1))),
                        );
                    assert(node_labels(root@).len() == labels.len() + 1);
                }
                assert(names.contains(seg));
                assert(node_names(root@).to_set() =~= names.to_set().insert(seg));
            }
            assert(names.to_set() == first_segments(strings_view(tags@).take(i as int)));
            let next = strings_view(tags@).take(i + 1);
            assert(next.drop_last() =~= strings_view(tags@).take(i as int));
            assert(next.last() == tags@[i as int]@);
        }
        i += 1;
    }
    assert(strings_view(tags@).take(i as int) =~= strings_view(tags@));
    root
}

/// `parts` are the segments of `tag`: at least one, none holding a `/`,
/// and joined with `/` they give the tag.
pub open spec fn is_split_of(parts: Seq<Seq<char>>, tag: Seq<char>) -> bool {
    parts.len() >= 1 && joined(parts) == tag && forall|k: int|
        0 <= k < parts.len() ==> !(#[trigger] parts[k]).contains('/')
}

/// The segments of `tag` name a chain of nodes from the top of the tree,
/// each with the path of the segments up to it; the last one has the tag
/// as its path.
pub open spec fn tag_reached(nodes: Seq<TagNode>, tag: Seq<char>) -> bool {
    exists|parts: Seq<Seq<char>>| #[trigger] is_split_of(parts, tag) && reaches(nodes, parts, 0)
}

/// The paths of the leading segments of some tag: the paths that a tree
/// built from these tags may hold.
pub open spec fn tag_prefixes(tags: Seq<Seq<char>>) -> Set<Seq<char>> {
    Set::new(
        |p: Seq<char>|
            exists|k: int, q: Seq<Seq<char>>, m: int|
                0 <= k < tags.len() && #[trigger] is_split_of(q, tags[k]) && 1 <= m <= q.len() && p
                    == #[trigger] joined(q.take(m)),
    )
}

/// The first segments of a list of tag paths.
pub open spec fn first_segments(tags: Seq<Seq<char>>) -> Set<Seq<char>>
    decreases tags.len(),
{
    if tags.len() == 0 {
        Set::empty()
    } else {
        first_segments(tags.drop_last()).insert(first_segment(tags.last()))
    }
}

/// The part of a tag path before its first `/` (the whole path if it has none).
pub open spec fn first_segment(tag: Seq<char>) -> Seq<char> {
    if tag.contains('/') {
        tag.take(choose_first_slash(tag))
    } else {
        tag
    }
}

/// The position of the first `/` in a text.
pub open spec fn choose_first_slash(tag: Seq<char>) -> int {
    choose|k: int| 0 <= k < tag.len() && tag[k] == '/' && !tag.take(k).contains('/')
}

proof fn lemma_joined_prefix(parts: Seq<Seq<char>>)
    requires
        parts.len() >= 1,
    ensures
        joined(parts).len() >= parts[0].len(),
        joined(parts).take(parts[0].len() as int) == parts[0],
        parts.len() > 1 ==> joined(parts).len() > parts[0].len() && joined(parts)[parts[0].len() as int] == '/',
    decreases parts.len(),
{
    if parts.len() > 1 {
        lemma_joined_prefix(parts.drop_last());
        let j = joined(parts.drop_last());
        assert(joined(parts) == j + seq!['/'] + parts.last());
        assert(parts.drop_last()[0] == parts[0]);
        if parts.len() > 2 {
            assert(joined(parts)[parts[0].len() as int] == j[parts[0].len() as int]);
        }
        assert(joined(parts).take(parts[0].len() as int) =~= j.take(parts[0].len() as int));
    }
}

proof fn lemma_first_segment(parts: Seq<Seq<char>>, tag: Seq<char>)
    requires
        parts.len() >= 1,
        joined(parts) == tag,
        forall|i: int| 0 <= i < parts.len() ==> !(#[trigger] parts[i]).contains('/'),
    ensures
        first_segment(tag) == parts[0],
{
    lemma_joined_prefix(parts);
    let n = parts[0].len() as int;
    assert(!parts[0].contains('/'));
    assert(tag.take(n) == parts[0]);
    if parts.len() > 1 {
        assert(tag[n] == '/');
        assert(!tag.take(n).contains('/')) by {
            if tag.take(n).contains('/') {
                let q = choose|q: int| 0 <= q < n && tag.take(n)[q] == '/';
                assert(parts[0][q] == '/');
            }
        }
        assert(tag.contains('/'));
        let k = choose_first_slash(tag);
        assert(0 <= k < tag.len() && tag[k] == '/' && !tag.take(k).contains('/'));
        if k < n {
            assert(tag.take(n)[k] == '/');
            assert(parts[0][k] == '/');
        } else if k > n {
            assert(tag.take(k)[n] == '/');
        }
    } else {
        assert(joined(parts) == parts[0]);
        assert(tag.take(n) =~= tag);
    }
}

} // verus!
