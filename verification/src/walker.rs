//! Directory traversal policy.
//!
//! The walker turns a root into the set of regular files to scan. A root
//! that is a regular file yields exactly itself, even when its name marks it
//! as hidden: the hidden-entry rule applies only to entries discovered while
//! descending, never to the explicitly supplied root. A root that is a
//! directory yields every regular file reachable below it, skipping every
//! discovered entry whose name starts with `.` (and with it everything
//! beneath), and skipping entries that are neither files nor directories.
//!
//! The traversal logic is verified here over a tree of entries; the process
//! around the library builds that tree from the filesystem, treating a
//! subdirectory it fails to read as one with no entries.
use vstd::prelude::*;
use vstd::utf8::char_is_scalar;
use vstd::utf8::char_u32_cast;
use vstd::utf8::encode_scalar;
use vstd::utf8::encode_utf8;

verus! {

/// One entry of a directory tree, as the walker sees it: a regular file, a
/// directory with the entries listed under it, or something that is neither
/// (a socket, a device). Each carries its name within its parent.
pub enum FsTree {
    File { name: String },
    Dir { name: String, children: Vec<FsTree> },
    Other { name: String },
}

/// The name of a tree entry.
pub open spec fn node_name(n: FsTree) -> Seq<char> {
    match n {
        FsTree::File { name } => name@,
        FsTree::Dir { name, children } => name@,
        FsTree::Other { name } => name@,
    }
}

/// True when a name marks a conventionally hidden entry: it starts with `.`.
pub open spec fn spec_is_hidden(name: Seq<char>) -> bool {
    name.len() > 0 && name[0] == '.'
}

/// A sequence of chars is empty exactly when its UTF-8 encoding is, and when
/// it is not, the encoding starts with the byte `.` exactly when the
/// sequence starts with the char `.`.
proof fn lemma_encoded_dot(s: Seq<char>)
    ensures
        encode_utf8(s).len() == 0 <==> s.len() == 0,
        s.len() > 0 ==> (encode_utf8(s)[0] == 0x2eu8 <==> s[0] == '.'),
{
    if s.len() > 0 {
        let c = s[0] as u32;
        char_is_scalar(s[0]);
        assert(encode_scalar(c).len() >= 1);
        assert(encode_utf8(s)[0] == encode_scalar(c)[0]);
        if c <= 0x7f {
            assert(((c & 0x7f) as u8 == 0x2eu8) <==> (c == 0x2e)) by (bit_vector)
                requires
                    c <= 0x7f,
            ;
        } else if c <= 0x7ff {
            assert((0xc0u8 | ((c >> 6u32) & 0x1f) as u8) != 0x2eu8) by (bit_vector);
        } else if c <= 0xffff {
            assert((0xe0u8 | ((c >> 12u32) & 0x0f) as u8) != 0x2eu8) by (bit_vector);
        } else {
            assert((0xf0u8 | ((c >> 18u32) & 0x7) as u8) != 0x2eu8) by (bit_vector);
        }
        assert('.' as u32 == 0x2e);
        if c == 0x2e {
            char_u32_cast(s[0], c);
            assert(s[0] == '.');
        }
    }
}

/// True exactly when the entry name starts with `.`, the conventional
/// hidden-entry marker. The empty name is not hidden.
pub fn is_hidden(name: &str) -> (r: bool)
    ensures
        r == spec_is_hidden(name@),
{
    proof {
        lemma_encoded_dot(name@);
    }
    let bytes = name.as_bytes();
    if bytes.len() == 0 {
        return false;
    }
    bytes[0] == 0x2e
}

/// The file paths collected when `n` is the explicitly supplied root (or,
/// within a traversal, a discovered entry that passed the hidden-name
/// check): no filter is applied to `n`'s own name. Each path lists the name
/// components from the root down, appended to `prefix`.
pub open spec fn collect_spec(prefix: Seq<Seq<char>>, n: FsTree) -> Seq<Seq<Seq<char>>>
    decreases n, 1int,
{
    match n {
        FsTree::File { name } => seq![prefix.push(name@)],
        FsTree::Dir { name, children } => collect_children_spec(prefix.push(name@), children@, 0),
        FsTree::Other { name } => Seq::empty(),
    }
}

/// The file paths a discovered entry contributes: nothing when its name is
/// hidden, its collected files otherwise.
pub open spec fn child_collect_spec(prefix: Seq<Seq<char>>, n: FsTree) -> Seq<Seq<Seq<char>>>
    decreases n, 2int,
{
    if spec_is_hidden(node_name(n)) {
        Seq::empty()
    } else {
        collect_spec(prefix, n)
    }
}

/// The file paths the children of a directory contribute, from index `i` on.
pub open spec fn collect_children_spec(prefix: Seq<Seq<char>>, cs: Seq<FsTree>, i: int) -> Seq<
    Seq<Seq<char>>,
>
    decreases cs, cs.len() - i, 3int,
{
    if i < 0 || i >= cs.len() {
        Seq::empty()
    } else {
        child_collect_spec(prefix, cs[i]) + collect_children_spec(prefix, cs, i + 1)
    }
}

/// The name of a tree entry.
pub fn entry_name(n: &FsTree) -> (r: &String)
    ensures
        r@ == node_name(*n),
{
    match n {
        FsTree::File { name } => name,
        FsTree::Dir { name, children } => name,
        FsTree::Other { name } => name,
    }
}

/// A copy of a path, component by component.
fn clone_path(p: &Vec<String>) -> (r: Vec<String>)
    ensures
        r.deep_view() == p.deep_view(),
{
    let mut r: Vec<String> = Vec::new();
    let n = p.len();
    let mut i: usize = 0;
    while i < n
        invariant
            0 <= i <= n,
            n == p@.len(),
            r.deep_view() == p.deep_view().take(i as int),
        decreases n - i,
    {
        let ghost before = r.deep_view();
        r.push(p[i].clone());
        proof {
            assert(r.deep_view() =~= before.push(p@[i as int]@));
            assert(p.deep_view().take(i as int + 1) =~= before.push(p@[i as int]@));
        }
        i = i + 1;
    }
    proof {
        assert(p.deep_view().take(n as int) =~= p.deep_view());
    }
    r
}

/// Appends to `out` the files collected under `node` taken as a root or as
/// an entry that already passed the hidden-name check.
fn collect_node(prefix: &Vec<String>, node: &FsTree, out: &mut Vec<Vec<String>>)
    ensures
        final (out).deep_view() == old(out).deep_view() + collect_spec(prefix.deep_view(), *node),
    decreases *node, 1int,
{
    match node {
        FsTree::File { name } => {
            let mut p = clone_path(prefix);
            p.push(name.clone());
            proof {
                assert(p.deep_view() =~= prefix.deep_view().push(name@));
            }
            let ghost pv = p.deep_view();
            let ghost before = out.deep_view();
            out.push(p);
            proof {
                assert(out.deep_view() =~= before.push(pv));
                assert(before.push(pv) =~= before + collect_spec(prefix.deep_view(), *node));
            }
        },
        FsTree::Dir { name, children } => {
            let mut p = clone_path(prefix);
            p.push(name.clone());
            proof {
                assert(p.deep_view() =~= prefix.deep_view().push(name@));
            }
            collect_children(&p, children, 0, out);
        },
        FsTree::Other { .. } => {
            proof {
                assert(out.deep_view() =~= out.deep_view() + Seq::<Seq<Seq<char>>>::empty());
            }
        },
    }
}

/// Appends to `out` what a discovered entry contributes: nothing when its
/// name is hidden, its collected files otherwise.
fn collect_child(prefix: &Vec<String>, node: &FsTree, out: &mut Vec<Vec<String>>)
    ensures
        final (out).deep_view() == old(out).deep_view() + child_collect_spec(prefix.deep_view(), *node),
    decreases *node, 2int,
{
    if is_hidden(entry_name(node).as_str()) {
        proof {
            assert(out.deep_view() =~= out.deep_view() + Seq::<Seq<Seq<char>>>::empty());
        }
    } else {
        collect_node(prefix, node, out);
    }
}

/// Appends to `out` what the children of a directory contribute, from index
/// `i` on.
fn collect_children(prefix: &Vec<String>, children: &Vec<FsTree>, i: usize, out: &mut Vec<
    Vec<String>,
>)
    requires
        i <= children@.len(),
    ensures
        final (out).deep_view() == old(out).deep_view() + collect_children_spec(
            prefix.deep_view(),
            children@,
            i as int,
        ),
    decreases children@, children@.len() - i, 3int,
{
    if i == children.len() {
        proof {
            assert(out.deep_view() =~= out.deep_view() + Seq::<Seq<Seq<char>>>::empty());
        }
        return ;
    }
    let ghost start = out.deep_view();
    collect_child(prefix, &children[i], out);
    collect_children(prefix, children, i + 1, out);
    proof {
        assert(out.deep_view() =~= start + (child_collect_spec(
            prefix.deep_view(),
            children@[i as int],
        ) + collect_children_spec(prefix.deep_view(), children@, i as int + 1)));
    }
}

/// Collects every regular file to scan under `root`: `root` itself when it
/// is a regular file (hidden-named or not), else every regular file
/// reachable below it whose path crosses no hidden-named discovered entry.
/// Each path lists the name components from the root down, the root's own
/// name first.
pub fn collect_files(root: &FsTree) -> (files: Vec<Vec<String>>)
    ensures
        files.deep_view() == collect_spec(Seq::empty(), *root),
{
    let prefix: Vec<String> = Vec::new();
    let mut out: Vec<Vec<String>> = Vec::new();
    collect_node(&prefix, root, &mut out);
    proof {
        assert(prefix.deep_view() =~= Seq::<Seq<char>>::empty());
        assert(Seq::<Seq<Seq<char>>>::empty() + collect_spec(Seq::empty(), *root) =~= collect_spec(
            Seq::empty(),
            *root,
        ));
        assert(out.deep_view() =~= collect_spec(Seq::empty(), *root));
    }
    out
}

/// The file paths a traversal without any hidden-entry filtering would
/// collect under `n`: every regular file reachable by recursive descent.
pub open spec fn all_files_spec(prefix: Seq<Seq<char>>, n: FsTree) -> Seq<Seq<Seq<char>>>
    decreases n, 1int,
{
    match n {
        FsTree::File { name } => seq![prefix.push(name@)],
        FsTree::Dir { name, children } => all_children_spec(prefix.push(name@), children@, 0),
        FsTree::Other { name } => Seq::empty(),
    }
}

/// The file paths an unfiltered traversal collects under the children of a
/// directory, from index `i` on.
pub open spec fn all_children_spec(prefix: Seq<Seq<char>>, cs: Seq<FsTree>, i: int) -> Seq<
    Seq<Seq<char>>,
>
    decreases cs, cs.len() - i, 2int,
{
    if i < 0 || i >= cs.len() {
        Seq::empty()
    } else {
        all_files_spec(prefix, cs[i]) + all_children_spec(prefix, cs, i + 1)
    }
}

/// True when no entry discovered below `n` carries a hidden name.
pub open spec fn no_hidden_entries(n: FsTree) -> bool
    decreases n, 1int,
{
    match n {
        FsTree::Dir { name, children } => children_visible(children@, 0),
        _ => true,
    }
}

/// True when the children from index `i` on, and everything below them,
/// carry no hidden name.
pub open spec fn children_visible(cs: Seq<FsTree>, i: int) -> bool
    decreases cs, cs.len() - i, 2int,
{
    i < 0 || i >= cs.len() || (!spec_is_hidden(node_name(cs[i])) && no_hidden_entries(cs[i])
        && children_visible(cs, i + 1))
}

/// Traversal completeness: when no entry below the root carries a hidden
/// name, the traversal collects exactly the paths of every regular file
/// reachable from the root.
pub proof fn lemma_traversal_complete(prefix: Seq<Seq<char>>, n: FsTree)
    requires
        no_hidden_entries(n),
    ensures
        collect_spec(prefix, n) == all_files_spec(prefix, n),
    decreases n, 1int,
{
    match n {
        FsTree::Dir { name, children } => {
            lemma_traversal_complete_children(prefix.push(name@), children@, 0);
        },
        _ => {},
    }
}

proof fn lemma_traversal_complete_children(prefix: Seq<Seq<char>>, cs: Seq<FsTree>, i: int)
    requires
        children_visible(cs, i),
    ensures
        collect_children_spec(prefix, cs, i) == all_children_spec(prefix, cs, i),
    decreases cs, cs.len() - i, 2int,
{
    if 0 <= i < cs.len() {
        assert(!spec_is_hidden(node_name(cs[i])) && no_hidden_entries(cs[i]) && children_visible(
            cs,
            i + 1,
        ));
        lemma_traversal_complete(prefix, cs[i]);
        lemma_traversal_complete_children(prefix, cs, i + 1);
        assert(child_collect_spec(prefix, cs[i]) == collect_spec(prefix, cs[i]));
        assert(collect_children_spec(prefix, cs, i) == child_collect_spec(prefix, cs[i])
            + collect_children_spec(prefix, cs, i + 1));
        assert(all_children_spec(prefix, cs, i) == all_files_spec(prefix, cs[i])
            + all_children_spec(prefix, cs, i + 1));
    }
}

/// True when every component of `path` from position `from` on is
/// non-hidden.
pub open spec fn visible_from(path: Seq<Seq<char>>, from: int) -> bool {
    forall|k: int| from <= k < path.len() ==> !spec_is_hidden(#[trigger] path[k])
}

/// True when `path` strictly extends `prefix`.
pub open spec fn extends_prefix(prefix: Seq<Seq<char>>, path: Seq<Seq<char>>) -> bool {
    path.len() > prefix.len() && path.subrange(0, prefix.len() as int) == prefix
}

/// Hidden-entry exclusion: every path a traversal collects extends the
/// prefix with the root's own name and then only non-hidden components. So
/// nothing below a hidden discovered entry is ever collected: the hidden
/// name itself never appears past the root position.
pub proof fn lemma_hidden_excluded(prefix: Seq<Seq<char>>, n: FsTree)
    ensures
        forall|j: int|
            0 <= j < collect_spec(prefix, n).len() ==> {
                let path = #[trigger] collect_spec(prefix, n)[j];
                extends_prefix(prefix, path) && path[prefix.len() as int] == node_name(n)
                    && visible_from(path, prefix.len() + 1int)
            },
    decreases n, 1int,
{
    match n {
        FsTree::Dir { name, children } => {
            let inner = prefix.push(name@);
            lemma_hidden_excluded_children(inner, children@, 0);
            assert(collect_spec(prefix, n) == collect_children_spec(inner, children@, 0));
            assert forall|j: int| 0 <= j < collect_spec(prefix, n).len() implies {
                let path = #[trigger] collect_spec(prefix, n)[j];
                extends_prefix(prefix, path) && path[prefix.len() as int] == node_name(n)
                    && visible_from(path, prefix.len() + 1int)
            } by {
                let path = collect_spec(prefix, n)[j];
                assert(path == collect_children_spec(inner, children@, 0)[j]);
                assert(extends_prefix(inner, path) && visible_from(path, inner.len() as int));
                assert(path.subrange(0, inner.len() as int) == inner);
                assert forall|t: int| 0 <= t < path.len() && t < inner.len() implies #[trigger] path[t]
                    == inner[t] by {
                    assert(path.subrange(0, inner.len() as int)[t] == path[t]);
                }
                assert(path.subrange(0, prefix.len() as int) =~= prefix);
                assert(path[prefix.len() as int] == inner[prefix.len() as int]);
                assert(inner[prefix.len() as int] == name@);
            }
        },
        FsTree::File { name } => {
            let path = prefix.push(name@);
            assert(path.subrange(0, prefix.len() as int) =~= prefix);
            assert(collect_spec(prefix, n) == seq![path]);
            assert(collect_spec(prefix, n)[0] == path);
        },
        FsTree::Other { .. } => {},
    }
}

proof fn lemma_hidden_excluded_children(prefix: Seq<Seq<char>>, cs: Seq<FsTree>, i: int)
    ensures
        forall|j: int|
            0 <= j < collect_children_spec(prefix, cs, i).len() ==> {
                let path = #[trigger] collect_children_spec(prefix, cs, i)[j];
                extends_prefix(prefix, path) && visible_from(path, prefix.len() as int)
            },
    decreases cs, cs.len() - i, 3int,
{
    if 0 <= i < cs.len() {
        let head = child_collect_spec(prefix, cs[i]);
        let tail = collect_children_spec(prefix, cs, i + 1);
        lemma_hidden_excluded_child(prefix, cs[i]);
        lemma_hidden_excluded_children(prefix, cs, i + 1);
        assert forall|j: int| 0 <= j < collect_children_spec(prefix, cs, i).len() implies {
            let path = #[trigger] collect_children_spec(prefix, cs, i)[j];
            extends_prefix(prefix, path) && visible_from(path, prefix.len() as int)
        } by {
            if j < head.len() {
                assert(collect_children_spec(prefix, cs, i)[j] == head[j]);
            } else {
                assert(collect_children_spec(prefix, cs, i)[j] == tail[j - head.len()]);
            }
        }
    }
}

proof fn lemma_hidden_excluded_child(prefix: Seq<Seq<char>>, n: FsTree)
    ensures
        forall|j: int|
            0 <= j < child_collect_spec(prefix, n).len() ==> {
                let path = #[trigger] child_collect_spec(prefix, n)[j];
                extends_prefix(prefix, path) && visible_from(path, prefix.len() as int)
            },
    decreases n, 2int,
{
    if !spec_is_hidden(node_name(n)) {
        lemma_hidden_excluded(prefix, n);
        assert forall|j: int| 0 <= j < child_collect_spec(prefix, n).len() implies {
            let path = #[trigger] child_collect_spec(prefix, n)[j];
            extends_prefix(prefix, path) && visible_from(path, prefix.len() as int)
        } by {
            let path = collect_spec(prefix, n)[j];
            assert(extends_prefix(prefix, path) && path[prefix.len() as int] == node_name(n)
                && visible_from(path, prefix.len() + 1int));
        }
    }
}

/// Explicit hidden-root override: a hidden name shuts an entry out only when
/// the entry is discovered during descent. Taken as the root, a hidden-named
/// file is still collected as the single result, and a hidden-named
/// directory still yields its children's files.
pub proof fn lemma_explicit_hidden_root(prefix: Seq<Seq<char>>, n: FsTree)
    requires
        spec_is_hidden(node_name(n)),
    ensures
        child_collect_spec(prefix, n) == Seq::<Seq<Seq<char>>>::empty(),
        n is File ==> collect_spec(prefix, n) == seq![prefix.push(node_name(n))],
        n is Dir ==> collect_spec(prefix, n) == collect_children_spec(
            prefix.push(node_name(n)),
            n->Dir_children@,
            0,
        ),
{
}

} // verus!
