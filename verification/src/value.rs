//! The JSON document model.
//!
//! A document is an unstructured JSON value. Numbers are tracked only by
//! their presence: no operation of the store ever reads a numeric value,
//! so the model does not carry one.

use vstd::prelude::*;

verus! {

broadcast use vstd::seq::group_seq_axioms, vstd::std_specs::vec::group_vec_axioms;

/// The mathematical shape of a JSON value.
pub enum JsonV {
    Null,
    Bool(bool),
    Num,
    Str(Seq<char>),
    Arr(Seq<JsonV>),
    Obj(Seq<(Seq<char>, JsonV)>),
}

/// A parsed JSON value.
pub enum Json {
    Null,
    Bool(bool),
    Num,
    Str(Vec<char>),
    Arr(Vec<Json>),
    Obj(Vec<(Vec<char>, Json)>),
}

/// The shapes of a sequence of parsed values.
pub open spec fn views_of(vs: Seq<Json>) -> Seq<JsonV>
    decreases vs,
{
    if vs.len() == 0 {
        Seq::empty()
    } else {
        views_of(vs.drop_last()).push(vs.last().view())
    }
}

/// The shapes of a sequence of parsed object members.
pub open spec fn member_views_of(ms: Seq<(Vec<char>, Json)>) -> Seq<(Seq<char>, JsonV)>
    decreases ms,
{
    if ms.len() == 0 {
        Seq::empty()
    } else {
        member_views_of(ms.drop_last()).push((ms.last().0@, ms.last().1.view()))
    }
}

impl View for Json {
    type V = JsonV;

    open spec fn view(&self) -> JsonV
        decreases *self,
    {
        match self {
            Json::Null => JsonV::Null,
            Json::Bool(b) => JsonV::Bool(*b),
            Json::Num => JsonV::Num,
            Json::Str(s) => JsonV::Str(s@),
            Json::Arr(vs) => JsonV::Arr(views_of(vs@)),
            Json::Obj(ms) => JsonV::Obj(member_views_of(ms@)),
        }
    }
}

/// The value under `key` among the members `ms`; with repeated keys the
/// last occurrence wins, as it does in a map filled by insertion.
pub open spec fn member_lookup(ms: Seq<(Seq<char>, JsonV)>, key: Seq<char>) -> Option<JsonV>
    decreases ms,
{
    if ms.len() == 0 {
        None
    } else if ms.last().0 == key {
        Some(ms.last().1)
    } else {
        member_lookup(ms.drop_last(), key)
    }
}

/// The value under `key` when `v` is an object that has that member;
/// `None` for every other value, as with a member lookup on a non-object.
pub open spec fn get_member(v: JsonV, key: Seq<char>) -> Option<JsonV> {
    match v {
        JsonV::Obj(ms) => member_lookup(ms, key),
        _ => None,
    }
}

/// `views_of` maps each element to its shape.
pub proof fn lemma_views_of(vs: Seq<Json>)
    ensures
        views_of(vs).len() == vs.len(),
        forall|i: int| 0 <= i < vs.len() ==> views_of(vs)[i] == vs[i]@,
    decreases vs,
{
    if vs.len() > 0 {
        lemma_views_of(vs.drop_last());
        assert(views_of(vs) == views_of(vs.drop_last()).push(vs.last()@));
        assert forall|i: int| 0 <= i < vs.len() implies views_of(vs)[i] == vs[i]@ by {
            if i < vs.len() - 1 {
                assert(views_of(vs)[i] == views_of(vs.drop_last())[i]);
                assert(vs.drop_last()[i] == vs[i]);
            } else {
                assert(views_of(vs)[i] == vs.last()@);
            }
        }
    }
}

/// `member_views_of` maps each member to its shape.
pub proof fn lemma_member_views_of(ms: Seq<(Vec<char>, Json)>)
    ensures
        member_views_of(ms).len() == ms.len(),
        forall|i: int| 0 <= i < ms.len() ==> member_views_of(ms)[i] == (ms[i].0@, ms[i].1@),
    decreases ms,
{
    if ms.len() > 0 {
        lemma_member_views_of(ms.drop_last());
        assert(member_views_of(ms) == member_views_of(ms.drop_last()).push(
            (ms.last().0@, ms.last().1@),
        ));
        assert forall|i: int| 0 <= i < ms.len() implies member_views_of(ms)[i] == (
        ms[i].0@,
        ms[i].1@,
        ) by {
            if i < ms.len() - 1 {
                assert(member_views_of(ms)[i] == member_views_of(ms.drop_last())[i]);
                assert(ms.drop_last()[i] == ms[i]);
            } else {
                assert(member_views_of(ms)[i] == (ms.last().0@, ms.last().1@));
            }
        }
    }
}

/// Appending a value appends its shape.
pub proof fn lemma_views_of_push(vs: Seq<Json>, v: Json)
    ensures
        views_of(vs.push(v)) == views_of(vs).push(v@),
{
    assert(vs.push(v).drop_last() =~= vs);
    assert(vs.push(v).last() == v);
}

/// Appending a member appends its shape.
pub proof fn lemma_member_views_of_push(ms: Seq<(Vec<char>, Json)>, kv: (Vec<char>, Json))
    ensures
        member_views_of(ms.push(kv)) == member_views_of(ms).push((kv.0@, kv.1@)),
{
    assert(ms.push(kv).drop_last() =~= ms);
    assert(ms.push(kv).last() == kv);
}

impl Json {
    /// The member of `self` under `key`, when `self` is an object that has
    /// it; the last member with that key wins.
    pub fn get<'a>(&'a self, key: &Vec<char>) -> (r: Option<&'a Json>)
        ensures
            match r {
                Some(m) => get_member(self@, key@) == Some(m@),
                None => get_member(self@, key@) is None,
            },
    {
        match self {
            Json::Obj(ms) => {
                proof {
                    lemma_member_views_of(ms@);
                    assert(member_views_of(ms@).subrange(0, ms@.len() as int) =~= member_views_of(
                        ms@,
                    ));
                }
                let mut i: usize = ms.len();
                while i > 0
                    invariant
                        self@ == JsonV::Obj(member_views_of(ms@)),
                        i <= ms@.len(),
                        member_views_of(ms@).len() == ms@.len(),
                        forall|k: int|
                            0 <= k < ms@.len() ==> member_views_of(ms@)[k] == (
                            ms@[k].0@,
                            ms@[k].1@,
                            ),
                        member_lookup(member_views_of(ms@), key@) == member_lookup(
                            member_views_of(ms@).subrange(0, i as int),
                            key@,
                        ),
                    decreases i,
                {
                    i = i - 1;
                    let hit = crate::text::chars_eq(&ms[i].0, key);
                    proof {
                        assert(member_views_of(ms@).subrange(0, i + 1 as int).drop_last()
                            =~= member_views_of(ms@).subrange(0, i as int));
                        assert(member_views_of(ms@).subrange(0, i + 1 as int).last() == (
                        ms@[i as int].0@,
                        ms@[i as int].1@,
                        ));
                    }
                    if hit {
                        proof {
                            let sub = member_views_of(ms@).subrange(0, i + 1 as int);
                            assert(sub.len() == i + 1);
                            assert(sub.last().0 == key@);
                            assert(member_lookup(sub, key@) == Some(ms@[i as int].1@));
                            assert(member_lookup(member_views_of(ms@), key@) == Some(
                                ms@[i as int].1@,
                            ));
                        }
                        return Some(&ms[i].1);
                    }
                }
                proof {
                    assert(member_views_of(ms@).subrange(0, 0) =~= Seq::<(
                        Seq<char>,
                        JsonV,
                    )>::empty());
                }
                None
            },
            _ => None,
        }
    }
}

} // verus!
