//! Payload values.
//!
//! The protocol carries opaque client payloads: the broadcast value, the log
//! records, the echo text. The library models them as `Val`: unsigned
//! numbers and strings — the shapes the workloads use and the dispatcher
//! inspects — plus objects as ordered field lists (the gossip wrapper is an
//! object), and a `Raw` arm that carries any other shape as its serialized
//! text. The I/O shell converts between wire JSON and `Val`.

use vstd::prelude::*;

verus! {

/// The abstract value of a payload.
pub enum ValV {
    Num(u64),
    Text(Seq<char>),
    Obj(Seq<(Seq<char>, ValV)>),
    Raw(Seq<char>),
}

/// A payload value.
#[derive(Debug, PartialEq, Eq)]
pub enum Val {
    /// An unsigned number.
    Num(u64),
    /// A string.
    Text(String),
    /// An object: named fields in wire order.
    Obj(Vec<(String, Val)>),
    /// Any other shape, as its serialized text.
    Raw(String),
}

/// The abstract value of a field list.
pub open spec fn fields_view(s: Seq<(String, Val)>) -> Seq<(Seq<char>, ValV)>
    decreases s,
{
    if s.len() == 0 {
        Seq::empty()
    } else {
        seq![(s[0].0@, val_view(s[0].1))] + fields_view(s.drop_first())
    }
}

/// The abstract value of a payload.
pub open spec fn val_view(v: Val) -> ValV
    decreases v,
{
    match v {
        Val::Num(n) => ValV::Num(n),
        Val::Text(s) => ValV::Text(s@),
        Val::Obj(fields) => ValV::Obj(fields_view(fields@)),
        Val::Raw(s) => ValV::Raw(s@),
    }
}

impl View for Val {
    type V = ValV;

    open spec fn view(&self) -> ValV {
        val_view(*self)
    }
}

/// `fields_view` maps the list pointwise.
pub proof fn lemma_fields_view_index(s: Seq<(String, Val)>)
    ensures
        fields_view(s).len() == s.len(),
        forall|i: int|
            0 <= i < s.len() ==> #[trigger] fields_view(s)[i] == (s[i].0@, val_view(s[i].1)),
    decreases s,
{
    if s.len() > 0 {
        lemma_fields_view_index(s.drop_first());
        assert forall|i: int| 0 <= i < s.len() implies #[trigger] fields_view(s)[i] == (
        s[i].0@,
        val_view(s[i].1),
        ) by {
            if i > 0 {
                assert(fields_view(s)[i] == fields_view(s.drop_first())[i - 1]);
                assert(s.drop_first()[i - 1] == s[i]);
            }
        }
    }
}

/// The first field of `fields` named `name`, if any.
pub open spec fn obj_lookup(fields: Seq<(Seq<char>, ValV)>, name: Seq<char>) -> Option<ValV>
    decreases fields.len(),
{
    if fields.len() == 0 {
        None
    } else if fields[0].0 == name {
        Some(fields[0].1)
    } else {
        obj_lookup(fields.drop_first(), name)
    }
}

/// Looks a field up by name, first match.
pub fn lookup_field<'a>(fields: &'a Vec<(String, Val)>, name: &String) -> (r: Option<&'a Val>)
    ensures
        match r {
            Some(v) => obj_lookup(fields_view(fields@), name@) == Some(v@),
            None => obj_lookup(fields_view(fields@), name@) is None,
        },
{
    proof {
        lemma_fields_view_index(fields@);
    }
    let ghost fv = fields_view(fields@);
    proof {
        assert(fv.skip(0) =~= fv);
    }
    let mut i: usize = 0;
    while i < fields.len()
        invariant
            i <= fields.len(),
            fv == fields_view(fields@),
            fv.len() == fields@.len(),
            forall|j: int| 0 <= j < fields@.len() ==> #[trigger] fv[j] == (
                fields@[j].0@,
                val_view(fields@[j].1),
            ),
            obj_lookup(fv, name@) == obj_lookup(fv.skip(i as int), name@),
        decreases fields.len() - i,
    {
        proof {
            assert(fv.skip(i as int)[0] == fv[i as int]);
            assert(fv.skip(i as int).drop_first() =~= fv.skip(i as int + 1));
        }
        if fields[i].0 == *name {
            return Some(&fields[i].1);
        }
        i = i + 1;
    }
    proof {
        assert(fv.skip(i as int) =~= Seq::empty());
    }
    None
}

impl Val {
    /// An exact copy: the copy's abstract value is the original's.
    pub fn dup(&self) -> (r: Val)
        ensures
            r@ == self@,
        decreases self,
    {
        match self {
            Val::Num(n) => Val::Num(*n),
            Val::Text(s) => Val::Text(s.clone()),
            Val::Raw(s) => Val::Raw(s.clone()),
            Val::Obj(fields) => {
                let mut out: Vec<(String, Val)> = Vec::new();
                let mut i: usize = 0;
                #[verifier::loop_isolation(false)]
                while i < fields.len()
                    invariant
                        i <= fields.len(),
                        out@.len() == i,
                        forall|j: int|
                            0 <= j < i ==> (#[trigger] out@[j].0@ == fields@[j].0@ && out@[j].1@
                                == fields@[j].1@),
                    decreases fields.len() - i,
                {
                    let name = fields[i].0.clone();
                    proof {
                        broadcast use vstd::std_specs::vec::axiom_vec_index_decreases;

                        assert(decreases_to!(*self => *fields));
                        assert(decreases_to!(*fields => fields[i as int]));
                        assert(decreases_to!(fields[i as int] => fields[i as int].1));
                        assert(decreases_to!(*self => fields[i as int].1));
                    }
                    let value = fields[i].1.dup();
                    out.push((name, value));
                    i = i + 1;
                }
                proof {
                    lemma_fields_view_index(out@);
                    lemma_fields_view_index(fields@);
                    assert(fields_view(out@) =~= fields_view(fields@));
                }
                Val::Obj(out)
            },
        }
    }
}

} // verus!
