//! Dotted paths: `a.b.c` names the member `c` of the member `b` of the member
//! `a`. Keys are compared exactly; there are no indices and no wildcards.

use vstd::prelude::*;
use crate::text::{find_char, first_index};
use crate::value::{lemma_member_wf, option_ref_view, option_view, GenericValue, Tree};

verus! {

/// What `path` names in `t`: the walk goes from object to member, one key
/// for each part between the dots, and ends with nothing at the first key
/// that is missing or asked of a value that is no object.
pub open spec fn resolve_path(t: Tree, path: Seq<char>) -> Option<Tree>
    decreases path.len(),
{
    let dot = first_index(path, '.');
    if dot < 0 || dot >= path.len() {
        t.member(path)
    } else {
        match t.member(path.take(dot)) {
            Some(child) => resolve_path(child, path.skip(dot + 1)),
            None => None,
        }
    }
}

/// A path without a dot names a member.
pub proof fn lemma_resolve_single_key(t: Tree, key: Seq<char>)
    requires
        !key.contains('.'),
    ensures
        resolve_path(t, key) == t.member(key),
{
    crate::text::lemma_first_index(key, '.');
    let dot = first_index(key, '.');
    if dot < key.len() {
        assert(key.contains(key[dot]));
    }
}

/// A path `head.rest`, with no dot in `head`, names in `t` what `rest` names
/// in the member `head` of `t`.
pub proof fn lemma_resolve_step(t: Tree, head: Seq<char>, rest: Seq<char>)
    requires
        !head.contains('.'),
    ensures
        resolve_path(t, head + seq!['.'] + rest) == match t.member(head) {
            Some(child) => resolve_path(child, rest),
            None => None,
        },
{
    let path = head + seq!['.'] + rest;
    assert forall|j: int| 0 <= j < head.len() implies path[j] != '.' by {
        assert(head.contains(head[j]));
    }
    assert(path[head.len() as int] == '.');
    crate::text::lemma_first_index_unique(path, '.', head.len() as int);
    assert(path.take(head.len() as int) =~= head);
    assert(path.skip(head.len() as int + 1) =~= rest);
}

/// What a path names in a well-formed value is well formed.
pub proof fn lemma_resolve_wf(t: Tree, path: Seq<char>)
    requires
        t.wf(),
    ensures
        resolve_path(t, path) matches Some(v) ==> v.wf(),
    decreases path.len(),
{
    let dot = first_index(path, '.');
    if dot < 0 || dot >= path.len() {
        lemma_member_wf(t, path);
    } else {
        lemma_member_wf(t, path.take(dot));
        if let Some(child) = t.member(path.take(dot)) {
            lemma_resolve_wf(child, path.skip(dot + 1));
        }
    }
}

/// The value that `path` names in `tree`, borrowed from it.
pub fn resolve<'a>(tree: &'a GenericValue, path: &str) -> (r: Option<&'a GenericValue>)
    ensures
        option_ref_view(r) == resolve_path(tree@, path@),
    decreases path@.len(),
{
    let n = path.unicode_len();
    let dot = find_char(path, '.');
    if dot >= n {
        tree.get(path)
    } else {
        match tree.get(path.substring_char(0, dot)) {
            Some(child) => resolve(child, path.substring_char(dot + 1, n)),
            None => None,
        }
    }
}

/// A copy of the value that `path` names in `metadata`, if it names one.
/// The empty path names nothing and is not accepted.
pub fn extract_simple_path(metadata: &GenericValue, path: &str) -> (r: Option<GenericValue>)
    requires
        path@.len() > 0,
    ensures
        option_view(r) == resolve_path(metadata@, path@),
        metadata@.wf() ==> (r matches Some(v) ==> v@.wf()),
{
    proof {
        if metadata@.wf() {
            lemma_resolve_wf(metadata@, path@);
        }
    }
    match resolve(metadata, path) {
        Some(v) => Some(v.duplicate()),
        None => None,
    }
}

} // verus!
