//! Query and projection helpers over the store: the distinct group names
//! an owner uses, and the key names inside one of its groups.

use vstd::prelude::*;

use crate::block::Block;
use crate::db::LbaseConnector;

verus! {

use vstd::utf8::{decode_utf8, valid_utf8};

use crate::block::{owner_group_pred, owner_pred};
use crate::utils::{str_from_bytes, strip_trailing_zeros};

/// The text a block's fixed-width group field decodes to.
pub open spec fn group_text(b: Block) -> Seq<char> {
    decode_utf8(strip_trailing_zeros(b.group@))
}

/// The text a block's fixed-width key field decodes to.
pub open spec fn key_text(b: Block) -> Seq<char> {
    decode_utf8(strip_trailing_zeros(b.key@))
}

/// The group names of a sequence of blocks, in order.
pub open spec fn group_texts(s: Seq<Block>) -> Seq<Seq<char>> {
    s.map_values(|b: Block| group_text(b))
}

/// The key names of a sequence of blocks, in order.
pub open spec fn key_texts(s: Seq<Block>) -> Seq<Seq<char>> {
    s.map_values(|b: Block| key_text(b))
}

/// The sequence with later duplicates dropped: each element kept at its
/// first occurrence, order preserved.
pub open spec fn dedup_first(s: Seq<Seq<char>>) -> Seq<Seq<char>>
    decreases s.len(),
{
    if s.len() == 0 {
        s
    } else {
        let rest = dedup_first(s.drop_last());
        if s.drop_last().contains(s.last()) {
            rest
        } else {
            rest.push(s.last())
        }
    }
}

/// De-duplication keeps exactly the distinct members: no element twice,
/// none added, none lost.
pub proof fn lemma_dedup_first_distinct(s: Seq<Seq<char>>)
    ensures
        forall|i: int, j: int|
            0 <= i < j < dedup_first(s).len() ==> dedup_first(s)[i] != dedup_first(s)[j],
        forall|x: Seq<char>| dedup_first(s).contains(x) <==> s.contains(x),
    decreases s.len(),
{
    if s.len() > 0 {
        let head = s.drop_last();
        let rest = dedup_first(head);
        lemma_dedup_first_distinct(head);
        assert forall|x: Seq<char>| s.contains(x) implies dedup_first(s).contains(x) by {
            let i = choose|i: int| 0 <= i < s.len() && s[i] == x;
            if i < s.len() - 1 {
                assert(head[i] == x);
                assert(head.contains(x));
                if !head.contains(s.last()) {
                    let j = choose|j: int| 0 <= j < rest.len() && rest[j] == x;
                    assert(dedup_first(s)[j] == x);
                }
            } else {
                if head.contains(s.last()) {
                    assert(head.contains(x));
                    let j = choose|j: int| 0 <= j < rest.len() && rest[j] == x;
                    assert(dedup_first(s)[j] == x);
                } else {
                    assert(dedup_first(s).last() == x);
                }
            }
        }
        assert forall|x: Seq<char>| dedup_first(s).contains(x) implies s.contains(x) by {
            let out = dedup_first(s);
            let i = choose|i: int| 0 <= i < out.len() && out[i] == x;
            if !head.contains(s.last()) && i == out.len() - 1 {
                assert(s.last() == x);
                assert(s[s.len() - 1] == x);
            } else {
                assert(rest[i] == x);
                assert(rest.contains(x));
                assert(head.contains(x));
                let j = choose|j: int| 0 <= j < head.len() && head[j] == x;
                assert(s[j] == x);
            }
        }
        if !head.contains(s.last()) {
            assert forall|i: int, j: int|
                0 <= i < j < dedup_first(s).len() implies dedup_first(s)[i] != dedup_first(
                s,
            )[j] by {
                if j == dedup_first(s).len() - 1 {
                    assert(rest[i] == dedup_first(s)[i]);
                    assert(rest.contains(dedup_first(s)[i]));
                }
            }
        }
    }
}

/// Relies on itertools' `unique`: duplicates removed, the first occurrence
/// of each string kept, order preserved.
#[verifier::external_body]
fn unique_strings(v: Vec<String>) -> (r: Vec<String>)
    ensures
        r.deep_view() == dedup_first(v.deep_view()),
{
    itertools::Itertools::unique(v.into_iter()).collect()
}

/// The distinct group names under an owner, each at its first appearance
/// in table order.
pub fn group_names(db: &LbaseConnector, public: &[u8; 64]) -> (r: Vec<String>)
    requires
        db.wf(),
        forall|i: int|
            0 <= i < db.blocks().filter(owner_pred(public@)).len() ==> valid_utf8(
                strip_trailing_zeros((#[trigger] db.blocks().filter(owner_pred(public@))[i]).group@),
            ),
    ensures
        r.deep_view() == dedup_first(group_texts(db.blocks().filter(owner_pred(public@)))),
{
    let sel = Block::get_by_public(db, public);
    let n = sel.len();
    let mut names: Vec<String> = Vec::new();
    proof {
        assert(names.deep_view() =~= group_texts(sel@.take(0)));
    }
    for i in 0..n
        invariant
            n == sel@.len(),
            sel@ == db.blocks().filter(owner_pred(public@)),
            forall|j: int|
                0 <= j < sel@.len() ==> valid_utf8(
                    strip_trailing_zeros((#[trigger] sel@[j]).group@),
                ),
            names.deep_view() == group_texts(sel@.take(i as int)),
    {
        let name = str_from_bytes(sel[i].group.as_slice());
        proof {
            assert(name@ == group_text(sel@[i as int]));
        }
        let ghost pre_seq = names@;
        let ghost pre_dv = names.deep_view();
        names.push(name);
        proof {
            assert(pre_dv == group_texts(sel@.take(i as int)));
            assert(pre_dv.len() == i as int);
            assert(pre_seq.len() == i as int);
            assert forall|j: int| 0 <= j < names@.len() implies names.deep_view()[j] == group_texts(
                sel@.take(i + 1),
            )[j] by {
                if j < i as int {
                    assert(names.deep_view()[j] == names@[j].deep_view());
                    assert(names@[j] == pre_seq[j]);
                    assert(pre_dv[j] == pre_seq[j].deep_view());
                    assert(pre_dv[j] == group_texts(sel@.take(i as int))[j]);
                    assert(sel@.take(i as int)[j] == sel@[j]);
                    assert(sel@.take(i + 1)[j] == sel@[j]);
                } else {
                    assert(names@[j] == name);
                }
            }
            assert(names.deep_view() =~= group_texts(sel@.take(i + 1)));
        }
    }
    proof {
        assert(sel@.take(n as int) =~= sel@);
    }
    unique_strings(names)
}

/// The key names inside an (owner, group) namespace, in table order.
pub fn key_names(db: &LbaseConnector, public: &[u8; 64], group: &[u8; 32]) -> (r: Vec<String>)
    requires
        db.wf(),
        forall|i: int|
            0 <= i < db.blocks().filter(owner_group_pred(public@, group@)).len() ==> valid_utf8(
                strip_trailing_zeros(
                    (#[trigger] db.blocks().filter(owner_group_pred(public@, group@))[i]).key@,
                ),
            ),
    ensures
        r.deep_view() == key_texts(db.blocks().filter(owner_group_pred(public@, group@))),
{
    let sel = Block::get_by_public_group(db, public, group);
    let n = sel.len();
    let mut names: Vec<String> = Vec::new();
    proof {
        assert(names.deep_view() =~= key_texts(sel@.take(0)));
    }
    for i in 0..n
        invariant
            n == sel@.len(),
            sel@ == db.blocks().filter(owner_group_pred(public@, group@)),
            forall|j: int|
                0 <= j < sel@.len() ==> valid_utf8(strip_trailing_zeros((#[trigger] sel@[j]).key@)),
            names.deep_view() == key_texts(sel@.take(i as int)),
    {
        let name = str_from_bytes(sel[i].key.as_slice());
        proof {
            assert(name@ == key_text(sel@[i as int]));
        }
        let ghost pre_seq = names@;
        let ghost pre_dv = names.deep_view();
        names.push(name);
        proof {
            assert(pre_dv == key_texts(sel@.take(i as int)));
            assert(pre_dv.len() == i as int);
            assert(pre_seq.len() == i as int);
            assert forall|j: int| 0 <= j < names@.len() implies names.deep_view()[j] == key_texts(
                sel@.take(i + 1),
            )[j] by {
                if j < i as int {
                    assert(names.deep_view()[j] == names@[j].deep_view());
                    assert(names@[j] == pre_seq[j]);
                    assert(pre_dv[j] == pre_seq[j].deep_view());
                    assert(pre_dv[j] == key_texts(sel@.take(i as int))[j]);
                    assert(sel@.take(i as int)[j] == sel@[j]);
                    assert(sel@.take(i + 1)[j] == sel@[j]);
                } else {
                    assert(names@[j] == name);
                }
            }
            assert(names.deep_view() =~= key_texts(sel@.take(i + 1)));
        }
    }
    proof {
        assert(sel@.take(n as int) =~= sel@);
    }
    names
}

} // verus!
