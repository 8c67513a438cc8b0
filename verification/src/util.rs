//! Walking the members of a type, and finding the one type of a list of values.

use crate::error::{Error, Failure};
use crate::variant::{all_of_type, type_of, types_of, values, Value, Variant};
use crate::variant_ty::{Ty, VariantTy};
use vstd::prelude::*;

verus! {

/// Walks the members of a tuple or dictionary-entry type in order.
pub struct VariantTyTupleIterator {
    members: Vec<VariantTy>,
    index: usize,
}

impl View for VariantTyTupleIterator {
    type V = Seq<Ty>;

    /// The members that are still to come.
    closed spec fn view(&self) -> Seq<Ty> {
        crate::variant_ty::models(self.members@).skip(self.index as int)
    }
}

impl VariantTyTupleIterator {
    /// The invariant of the walk: it has not run past the last member.
    #[verifier::type_invariant]
    closed spec fn inv(&self) -> bool {
        self.index <= self.members.len()
    }

    /// Starts at the first member of `ty`. Fails with `WrongShape` unless `ty`
    /// is a tuple with known members or a dictionary entry.
    #[verifier::loop_isolation(false)]
    pub fn new(ty: &VariantTy) -> (r: Result<Self, Error>)
        ensures
            ty@.has_members() ==> (r matches Ok(it) && it@ == ty@.members()),
            !ty@.has_members() ==> (r matches Err(e) && e@ == Failure::WrongShape),
    {
        match ty {
            VariantTy::Tuple(items) => {
                let mut members: Vec<VariantTy> = Vec::new();
                let mut i: usize = 0;
                while i < items.len()
                    invariant
                        i <= items.len(),
                        members.len() == i,
                        forall|j: int| 0 <= j < i ==> members[j]@ == items[j]@,
                    decreases items.len() - i,
                {
                    members.push(items[i].clone());
                    i += 1;
                }
                let it = VariantTyTupleIterator { members, index: 0 };
                assert(it@ =~= ty@.members());
                Ok(it)
            },
            VariantTy::DictEntry(k, v) => {
                let mut members: Vec<VariantTy> = Vec::new();
                members.push(VariantTy::Basic(*k));
                members.push((**v).clone());
                let it = VariantTyTupleIterator { members, index: 0 };
                assert(it@ =~= ty@.members());
                Ok(it)
            },
            _ => Err(Error::WrongShape),
        }
    }

    /// The next member, which stays the next.
    pub fn peek(&self) -> (r: Option<VariantTy>)
        ensures
            self@.len() > 0 ==> (r matches Some(t) && t@ == self@[0]),
            self@.len() == 0 ==> r is None,
    {
        proof {
            use_type_invariant(self);
        }
        if self.index < self.members.len() {
            Some(self.members[self.index].clone())
        } else {
            None
        }
    }

    /// The next member, and steps past it.
    pub fn next(&mut self) -> (r: Option<VariantTy>)
        ensures
            old(self)@.len() > 0 ==> (r matches Some(t) && t@ == old(self)@[0] && final(self)@ == old(
                self,
            )@.drop_first()),
            old(self)@.len() == 0 ==> (r is None && final(self)@ == old(self)@),
    {
        proof {
            use_type_invariant(&*self);
        }
        if self.index < self.members.len() {
            let t = self.members[self.index].clone();
            self.index = self.index + 1;
            assert(self@ =~= old(self)@.drop_first());
            Some(t)
        } else {
            None
        }
    }

    /// The number of members that are still to come.
    pub fn len(&self) -> (n: usize)
        ensures
            n == self@.len(),
    {
        proof {
            use_type_invariant(self);
        }
        self.members.len() - self.index
    }
}

/// What a list of types has in common: `None` for an empty list, which says
/// nothing; `Some(Some(t))` where every member is `t`; `Some(None)` where two
/// members differ.
pub open spec fn unify(types: Seq<Ty>) -> Option<Option<Ty>> {
    if types.len() == 0 {
        None
    } else if forall|i: int| 0 <= i < types.len() ==> #[trigger] types[i] == types[0] {
        Some(Some(types[0]))
    } else {
        Some(None)
    }
}

/// The model of a result of [`variant_list_type`].
pub open spec fn unified(r: Option<Option<VariantTy>>) -> Option<Option<Ty>> {
    match r {
        None => None,
        Some(None) => Some(None),
        Some(Some(t)) => Some(Some(t@)),
    }
}

/// A list of one type has that type.
pub proof fn lemma_unify_one(t: Ty)
    ensures
        unify(seq![t]) == Some(Some(t)),
{
}

/// An empty list says nothing of its type: it is not held to be inconsistent.
pub proof fn lemma_unify_empty()
    ensures
        unify(Seq::<Ty>::empty()) == None::<Option<Ty>>,
{
}

/// Unifying from left to right: one more member keeps the type that the list
/// had where it has that type too, and makes the list inconsistent where it
/// has another.
pub proof fn lemma_unify_push(types: Seq<Ty>, t: Ty)
    ensures
        unify(types.push(t)) == (match unify(types) {
            None => Some(Some(t)),
            Some(Some(u)) => if u == t {
                Some(Some(u))
            } else {
                Some(None)
            },
            Some(None) => Some(None),
        }),
{
    let all = types.push(t);
    match unify(types) {
        None => {},
        Some(Some(u)) => {
            assert(all[0] == u);
            if u == t {
                assert forall|i: int| 0 <= i < all.len() implies #[trigger] all[i] == all[0] by {
                    if i < types.len() {
                        assert(all[i] == types[i]);
                    }
                }
            } else {
                assert(all[types.len() as int] == t);
            }
        },
        Some(None) => {
            let i = choose|i: int| 0 <= i < types.len() && #[trigger] types[i] != types[0];
            assert(all[i] == types[i]);
            assert(all[0] == types[0]);
        },
    }
}

/// The one type of the values in `vars`, if they have one.
pub fn variant_list_type(vars: &Vec<Variant>) -> (r: Option<Option<VariantTy>>)
    ensures
        unified(r) == unify(types_of(values(vars@))),
{
    let ghost types = types_of(values(vars@));
    let mut res: Option<Option<VariantTy>> = None;
    let mut i: usize = 0;
    assert(types.take(0) =~= Seq::<Ty>::empty());
    while i < vars.len()
        invariant
            i <= vars.len(),
            types == types_of(values(vars@)),
            unified(res) == unify(types.take(i as int)),
        decreases vars.len() - i,
    {
        proof {
            lemma_unify_push(types.take(i as int), types[i as int]);
            assert(types.take(i as int).push(types[i as int]) =~= types.take(i + 1));
        }
        let ty = vars[i].type_();
        res = match res {
            None => Some(Some(ty)),
            Some(Some(seen)) => if seen.equals(&ty) {
                Some(Some(seen))
            } else {
                Some(None)
            },
            Some(None) => Some(None),
        };
        i += 1;
    }
    assert(types.take(i as int) =~= types);
    res
}

/// A list of values with the element type that an array of them would have:
/// their one type, or none where they are to be boxed one by one.
pub struct VariantList {
    pub elem_ty: Option<VariantTy>,
    pub variants: Vec<Variant>,
}

/// The values of `items`, each in a box.
pub open spec fn boxed_all(items: Seq<Value>) -> Seq<Value> {
    Seq::new(items.len(), |i: int| Value::Boxed(Box::new(items[i])))
}

impl VariantList {
    /// The values of the list.
    pub open spec fn items(self) -> Seq<Value> {
        values(self.variants@)
    }

    /// The element type that was found or given, if any.
    pub open spec fn found(self) -> Option<Ty> {
        match self.elem_ty {
            Some(t) => Some(t@),
            None => None,
        }
    }

    /// The element type of the array that the list makes.
    pub open spec fn spec_elem_type(self) -> Ty {
        match self.elem_ty {
            Some(t) => t@,
            None => Ty::Variant,
        }
    }

    /// The members of the array that the list makes: the values themselves
    /// where they have one type, else each in a box.
    pub open spec fn spec_iter(self) -> Seq<Value> {
        match self.elem_ty {
            Some(_) => self.items(),
            None => boxed_all(self.items()),
        }
    }

    /// Whether every value has the element type, where there is one.
    pub open spec fn consistent(self) -> bool {
        self.elem_ty matches Some(t) ==> all_of_type(self.items(), t@)
    }

    pub fn new(elem_ty: Option<VariantTy>, variants: Vec<Variant>) -> (r: Self)
        ensures
            r.elem_ty == elem_ty,
            r.variants == variants,
    {
        Self { elem_ty, variants }
    }

    /// The element type of the array that the list makes: the one type of its
    /// values, or `v` where they are boxed.
    pub fn elem_type(&self) -> (r: VariantTy)
        ensures
            r@ == self.spec_elem_type(),
    {
        match &self.elem_ty {
            Some(ty) => ty.clone(),
            None => VariantTy::Variant,
        }
    }

    /// The list of `variants` with their one type; with `empty_fallback` where
    /// there are none; with no type where they differ.
    pub fn with_variants(variants: Vec<Variant>, empty_fallback: VariantTy) -> (r: Self)
        ensures
            r.items() == values(variants@),
            r.found() == (match unify(types_of(values(variants@))) {
                None => Some(empty_fallback@),
                Some(Some(t)) => Some(t),
                Some(None) => None,
            }),
            r.consistent(),
    {
        let ty = match variant_list_type(&variants) {
            None => Some(empty_fallback),
            Some(Some(ty)) => Some(ty),
            Some(None) => None,
        };
        let r = Self::new(ty, variants);
        proof {
            let types = types_of(values(variants@));
            if let Some(Some(t)) = unify(types) {
                assert forall|i: int| 0 <= i < r.items().len() implies type_of(
                    #[trigger] r.items()[i],
                ) == t by {
                    assert(types[i] == types[0]);
                }
            }
        }
        r
    }

    pub fn is_empty(&self) -> (b: bool)
        ensures
            b == (self.items().len() == 0),
    {
        self.variants.len() == 0
    }

    /// The values of the list as they are.
    pub fn variants(&self) -> (r: &Vec<Variant>)
        ensures
            values(r@) == self.items(),
    {
        &self.variants
    }

    /// The members of the array that the list makes.
    pub fn iter(&self) -> (r: Vec<Variant>)
        ensures
            values(r@) == self.spec_iter(),
    {
        let boxed = self.elem_ty.is_none();
        let mut out: Vec<Variant> = Vec::new();
        let mut i: usize = 0;
        while i < self.variants.len()
            invariant
                i <= self.variants.len(),
                out.len() == i,
                boxed == (self.elem_ty is None),
                forall|j: int| 0 <= j < i ==> out[j]@ == self.spec_iter()[j],
            decreases self.variants.len() - i,
        {
            let v = self.variants[i].clone();
            if boxed {
                out.push(Variant::from_variant(v));
            } else {
                out.push(v);
            }
            i += 1;
        }
        assert(values(out@) =~= self.spec_iter());
        out
    }

    /// The array of the values, boxed one by one where they have no one type.
    pub fn to_array(&self) -> (r: Variant)
        requires
            self.consistent(),
        ensures
            r@ == Value::Array(self.spec_elem_type(), self.spec_iter()),
    {
        let items = self.iter();
        assert(all_of_type(self.spec_iter(), self.spec_elem_type()));
        Variant::array_from_iter_with_type(self.elem_type(), items)
    }

    /// The tuple of the values where they have no one type; the empty tuple
    /// where there are none; else the array of them.
    pub fn to_tuple_or_array(&self) -> (r: Variant)
        requires
            self.consistent(),
        ensures
            r@ == (match self.found() {
                None => Value::Tuple(self.items()),
                Some(t) => if self.items().len() == 0 {
                    Value::Tuple(Seq::empty())
                } else {
                    Value::Array(t, self.items())
                },
            }),
    {
        match &self.elem_ty {
            None => Variant::tuple_from_iter(self.iter_plain()),
            Some(ty) => {
                if self.is_empty() {
                    Variant::unit()
                } else {
                    Variant::array_from_iter_with_type(ty.clone(), self.iter_plain())
                }
            },
        }
    }

    /// Copies of the values of the list as they are.
    fn iter_plain(&self) -> (r: Vec<Variant>)
        ensures
            values(r@) == self.items(),
    {
        let mut out: Vec<Variant> = Vec::new();
        let mut i: usize = 0;
        while i < self.variants.len()
            invariant
                i <= self.variants.len(),
                out.len() == i,
                forall|j: int| 0 <= j < i ==> out[j]@ == self.variants[j]@,
            decreases self.variants.len() - i,
        {
            out.push(self.variants[i].clone());
            i += 1;
        }
        assert(values(out@) =~= self.items());
        out
    }
}

} // verus!
