//! Going through the entries of an object of rules, in their order, and
//! gathering what they give: the step that sections, nested sections and
//! the rule set as a whole have in common.

use vstd::prelude::*;
use crate::error::MappingError;
use crate::value::{distinct_names, find_member, lemma_find_member_none, Tree};

verus! {

/// The members that `entries` give, in their order: each entry gives a
/// member of its own name where `f` finds a value for its rule, and none
/// where `f` finds nothing. The first failure of `f` is the failure of the
/// whole.
pub open spec fn collected(
    entries: Seq<(Seq<char>, Tree)>,
    f: spec_fn(Tree) -> Result<Option<Tree>, MappingError>,
) -> Result<Seq<(Seq<char>, Tree)>, MappingError>
    decreases entries.len(),
{
    if entries.len() == 0 {
        Ok(Seq::empty())
    } else {
        match collected(entries.drop_last(), f) {
            Err(e) => Err(e),
            Ok(done) => match f(entries.last().1) {
                Err(e) => Err(e),
                Ok(Some(v)) => Ok(done.push((entries.last().0, v))),
                Ok(None) => Ok(done),
            },
        }
    }
}

/// The object of these members, or nothing where there are none.
pub open spec fn kept(members: Seq<(Seq<char>, Tree)>) -> Option<Tree> {
    if members.len() > 0 {
        Some(Tree::Object(members))
    } else {
        None
    }
}

/// What an object of rules gives under `f`: the object of what its entries
/// give, or nothing where they give nothing. What is no object gives
/// nothing.
pub open spec fn kept_object(
    rules: Tree,
    f: spec_fn(Tree) -> Result<Option<Tree>, MappingError>,
) -> Result<Option<Tree>, MappingError> {
    match rules {
        Tree::Object(entries) => match collected(entries, f) {
            Ok(members) => Ok(kept(members)),
            Err(e) => Err(e),
        },
        _ => Ok(None),
    }
}

/// One more entry: what the entries before it gave, and its own member
/// behind that where it gives one.
pub proof fn lemma_collected_step(
    entries: Seq<(Seq<char>, Tree)>,
    f: spec_fn(Tree) -> Result<Option<Tree>, MappingError>,
    k: int,
)
    requires
        0 <= k < entries.len(),
    ensures
        collected(entries.take(k + 1), f) == match collected(entries.take(k), f) {
            Err(e) => Err(e),
            Ok(done) => match f(entries[k].1) {
                Err(e) => Err(e),
                Ok(Some(v)) => Ok(done.push((entries[k].0, v))),
                Ok(None) => Ok(done),
            },
        },
{
    let p = entries.take(k + 1);
    assert(p.drop_last() =~= entries.take(k));
    assert(p.last() == entries[k]);
}

/// A failure among the first `k` entries is the failure of all of them.
pub proof fn lemma_collected_failure(
    entries: Seq<(Seq<char>, Tree)>,
    f: spec_fn(Tree) -> Result<Option<Tree>, MappingError>,
    k: int,
)
    requires
        0 <= k <= entries.len(),
        collected(entries.take(k), f) is Err,
    ensures
        collected(entries, f) == collected(entries.take(k), f),
    decreases entries.len() - k,
{
    if k < entries.len() {
        let shorter = entries.drop_last();
        assert(shorter.take(k) =~= entries.take(k));
        lemma_collected_failure(shorter, f, k);
    } else {
        assert(entries.take(k) =~= entries);
    }
}

/// `member` is what `f` finds for one of `entries`, under that entry's name.
pub open spec fn comes_from(
    entries: Seq<(Seq<char>, Tree)>,
    f: spec_fn(Tree) -> Result<Option<Tree>, MappingError>,
    member: (Seq<char>, Tree),
) -> bool {
    exists|i: int|
        0 <= i < entries.len() && (#[trigger] entries[i]).0 == member.0 && f(entries[i].1) == Ok::<
            Option<Tree>,
            MappingError,
        >(Some(member.1))
}

/// Every member of the output stands for an entry of the rules: it has the
/// entry's name and the value that was found for the entry's rule.
pub proof fn lemma_collected_members(
    entries: Seq<(Seq<char>, Tree)>,
    f: spec_fn(Tree) -> Result<Option<Tree>, MappingError>,
)
    ensures
        collected(entries, f) matches Ok(out) ==> forall|k: int|
            0 <= k < out.len() ==> comes_from(entries, f, #[trigger] out[k]),
    decreases entries.len(),
{
    if entries.len() > 0 {
        let shorter = entries.drop_last();
        lemma_collected_members(shorter, f);
        if let Ok(out) = collected(entries, f) {
            let done = collected(shorter, f)->Ok_0;
            assert forall|k: int| 0 <= k < out.len() implies comes_from(
                entries,
                f,
                #[trigger] out[k],
            ) by {
                if k < done.len() {
                    assert(out[k] == done[k]);
                    let i = choose|i: int|
                        0 <= i < shorter.len() && (#[trigger] shorter[i]).0 == done[k].0 && f(
                            shorter[i].1,
                        ) == Ok::<Option<Tree>, MappingError>(Some(done[k].1));
                    assert(entries[i] == shorter[i]);
                } else {
                    assert(entries[entries.len() - 1] == entries.last());
                }
            }
        }
    }
}

/// Every entry for which a value is found has its member in the output.
pub proof fn lemma_collected_complete(
    entries: Seq<(Seq<char>, Tree)>,
    f: spec_fn(Tree) -> Result<Option<Tree>, MappingError>,
    i: int,
)
    requires
        0 <= i < entries.len(),
        collected(entries, f) is Ok,
        f(entries[i].1) matches Ok(Some(_)),
    ensures
        collected(entries, f)->Ok_0.contains((entries[i].0, f(entries[i].1)->Ok_0->0)),
    decreases entries.len(),
{
    let out = collected(entries, f)->Ok_0;
    let shorter = entries.drop_last();
    let done = collected(shorter, f)->Ok_0;
    let member = (entries[i].0, f(entries[i].1)->Ok_0->0);
    assert(entries[entries.len() - 1] == entries.last());
    if i < entries.len() - 1 {
        assert(shorter[i] == entries[i]);
        lemma_collected_complete(shorter, f, i);
        let k = choose|k: int| 0 <= k < done.len() && done[k] == member;
        assert(out[k] == member);
    } else {
        assert(out[out.len() - 1] == member);
    }
}

/// The whole fails exactly where some entry fails, and with the failure of
/// the first entry that does.
pub proof fn lemma_collected_first_failure(
    entries: Seq<(Seq<char>, Tree)>,
    f: spec_fn(Tree) -> Result<Option<Tree>, MappingError>,
)
    ensures
        match collected(entries, f) {
            Ok(_) => forall|i: int| 0 <= i < entries.len() ==> f((#[trigger] entries[i]).1) is Ok,
            Err(e) => exists|i: int|
                {
                    &&& 0 <= i < entries.len()
                    &&& f((#[trigger] entries[i]).1) == Err::<Option<Tree>, MappingError>(e)
                    &&& forall|j: int| 0 <= j < i ==> f((#[trigger] entries[j]).1) is Ok
                },
        },
    decreases entries.len(),
{
    if entries.len() > 0 {
        let shorter = entries.drop_last();
        lemma_collected_first_failure(shorter, f);
        let last = entries.len() - 1;
        assert(entries[last] == entries.last());
        match collected(shorter, f) {
            Err(e) => {
                let i = choose|i: int|
                    {
                        &&& 0 <= i < shorter.len()
                        &&& f((#[trigger] shorter[i]).1) == Err::<Option<Tree>, MappingError>(e)
                        &&& forall|j: int| 0 <= j < i ==> f((#[trigger] shorter[j]).1) is Ok
                    };
                assert(entries[i] == shorter[i]);
                assert forall|j: int| 0 <= j < i implies f((#[trigger] entries[j]).1) is Ok by {
                    assert(entries[j] == shorter[j]);
                }
            },
            Ok(_) => {
                assert forall|j: int| 0 <= j < last implies f((#[trigger] entries[j]).1) is Ok by {
                    assert(entries[j] == shorter[j]);
                }
            },
        }
    }
}

/// A name whose entries all resolve to nothing is the name of no member of
/// the output.
pub proof fn lemma_collected_skips_absent(
    entries: Seq<(Seq<char>, Tree)>,
    f: spec_fn(Tree) -> Result<Option<Tree>, MappingError>,
    name: Seq<char>,
)
    requires
        forall|i: int|
            0 <= i < entries.len() && (#[trigger] entries[i]).0 == name ==> f(entries[i].1) == Ok::<
                Option<Tree>,
                MappingError,
            >(None),
    ensures
        collected(entries, f) matches Ok(out) ==> find_member(out, name) is None,
{
    lemma_collected_members(entries, f);
    if let Ok(out) = collected(entries, f) {
        assert forall|k: int| 0 <= k < out.len() implies (#[trigger] out[k]).0 != name by {
            assert(comes_from(entries, f, out[k]));
        }
        lemma_find_member_none(out, name);
    }
}

/// Entries that all resolve to nothing give no member, and the object of
/// such entries gives nothing.
pub proof fn lemma_all_absent(
    entries: Seq<(Seq<char>, Tree)>,
    f: spec_fn(Tree) -> Result<Option<Tree>, MappingError>,
)
    requires
        forall|i: int|
            0 <= i < entries.len() ==> f((#[trigger] entries[i]).1) == Ok::<
                Option<Tree>,
                MappingError,
            >(None),
    ensures
        collected(entries, f) == Ok::<Seq<(Seq<char>, Tree)>, MappingError>(Seq::empty()),
        kept_object(Tree::Object(entries), f) == Ok::<Option<Tree>, MappingError>(None),
    decreases entries.len(),
{
    if entries.len() > 0 {
        let shorter = entries.drop_last();
        assert forall|i: int| 0 <= i < shorter.len() implies f((#[trigger] shorter[i]).1) == Ok::<
            Option<Tree>,
            MappingError,
        >(None) by {
            assert(shorter[i] == entries[i]);
        }
        lemma_all_absent(shorter, f);
        assert(entries[entries.len() - 1] == entries.last());
    }
}

/// Rules with distinct names give members with distinct names.
pub proof fn lemma_collected_distinct(
    entries: Seq<(Seq<char>, Tree)>,
    f: spec_fn(Tree) -> Result<Option<Tree>, MappingError>,
)
    requires
        distinct_names(entries),
    ensures
        collected(entries, f) matches Ok(out) ==> distinct_names(out),
    decreases entries.len(),
{
    if entries.len() > 0 {
        let shorter = entries.drop_last();
        assert(distinct_names(shorter)) by {
            assert forall|i: int, j: int| 0 <= i < j < shorter.len() implies (#[trigger] shorter[i]).0
                != (#[trigger] shorter[j]).0 by {
                assert(shorter[i] == entries[i]);
                assert(shorter[j] == entries[j]);
            }
        }
        lemma_collected_distinct(shorter, f);
        lemma_collected_members(shorter, f);
        if let Ok(out) = collected(entries, f) {
            let done = collected(shorter, f)->Ok_0;
            assert forall|i: int, j: int| 0 <= i < j < out.len() implies (#[trigger] out[i]).0 != (
            #[trigger] out[j]).0 by {
                if j < done.len() {
                    assert(out[i] == done[i]);
                    assert(out[j] == done[j]);
                } else {
                    assert(out[i] == done[i]);
                    assert(comes_from(shorter, f, done[i]));
                    let k = choose|k: int|
                        0 <= k < shorter.len() && (#[trigger] shorter[k]).0 == done[i].0 && f(
                            shorter[k].1,
                        ) == Ok::<Option<Tree>, MappingError>(Some(done[i].1));
                    assert(shorter[k] == entries[k]);
                    assert(entries[entries.len() - 1] == entries.last());
                    assert(out[j].0 == entries.last().0);
                }
            }
        }
    }
}

/// Two ways of resolving that agree on every rule of `entries` give the
/// same members.
pub proof fn lemma_collected_same(
    entries: Seq<(Seq<char>, Tree)>,
    f: spec_fn(Tree) -> Result<Option<Tree>, MappingError>,
    g: spec_fn(Tree) -> Result<Option<Tree>, MappingError>,
)
    requires
        forall|i: int| 0 <= i < entries.len() ==> f((#[trigger] entries[i]).1) == g(entries[i].1),
    ensures
        collected(entries, f) == collected(entries, g),
    decreases entries.len(),
{
    if entries.len() > 0 {
        let shorter = entries.drop_last();
        assert forall|i: int| 0 <= i < shorter.len() implies f((#[trigger] shorter[i]).1) == g(
            shorter[i].1,
        ) by {
            assert(shorter[i] == entries[i]);
        }
        lemma_collected_same(shorter, f, g);
        assert(entries[entries.len() - 1] == entries.last());
    }
}

/// Rules with distinct names, each of which resolves to a well-formed value
/// or to none, give the members of a well-formed object.
pub proof fn lemma_collected_wf(
    entries: Seq<(Seq<char>, Tree)>,
    f: spec_fn(Tree) -> Result<Option<Tree>, MappingError>,
)
    requires
        distinct_names(entries),
        forall|i: int|
            0 <= i < entries.len() ==> (f((#[trigger] entries[i]).1) matches Ok(Some(v))
                ==> v.wf()),
    ensures
        collected(entries, f) matches Ok(out) ==> Tree::Object(out).wf(),
        kept_object(Tree::Object(entries), f) matches Ok(Some(v)) ==> v.wf(),
{
    lemma_collected_distinct(entries, f);
    lemma_collected_members(entries, f);
    if let Ok(out) = collected(entries, f) {
        assert forall|k: int| 0 <= k < out.len() implies (#[trigger] out[k]).1.wf() by {
            assert(comes_from(entries, f, out[k]));
        }
    }
}

} // verus!
