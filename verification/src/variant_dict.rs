//! A mutable dictionary of boxed values keyed by strings.

use crate::any_variant::{emit, AnyVariant};
use crate::datum::{Data, Datum};
use crate::error::{Error, Failure};
use crate::variant::{values, Value, Variant};
use crate::variant_ty::{BasicTy, Ty, VariantTy};
use vstd::prelude::*;

verus! {

/// The type `{sv}` of the entries.
pub open spec fn entry_ty() -> Ty {
    Ty::DictEntry(BasicTy::Str, Box::new(Ty::Variant))
}

/// The entry of a key and the value in its box.
pub open spec fn entry_of(key: Seq<char>, value: Value) -> Value {
    Value::DictEntry(Box::new(Value::Str(key)), Box::new(Value::Boxed(Box::new(value))))
}

/// The entries of a list of keys with their values.
pub open spec fn entries_for(pairs: Seq<(Seq<char>, Value)>) -> Seq<Value> {
    Seq::new(pairs.len(), |i: int| entry_of(pairs[i].0, pairs[i].1))
}

/// The members of an array; another value has none.
pub open spec fn members(v: Value) -> Seq<Value> {
    match v {
        Value::Array(_, items) => items,
        _ => Seq::empty(),
    }
}

/// The place of `key` among `pairs`: the first that holds it, or their number
/// where none does.
pub open spec fn find_key(pairs: Seq<(Seq<char>, Value)>, key: Seq<char>) -> int
    decreases pairs.len(),
{
    if pairs.len() == 0 {
        0
    } else if pairs[0].0 == key {
        0
    } else {
        1 + find_key(pairs.drop_first(), key)
    }
}

/// `pairs` with `value` under `key`: in the place of the value that the key
/// had, or at the end where it had none.
pub open spec fn with_entry(
    pairs: Seq<(Seq<char>, Value)>,
    key: Seq<char>,
    value: Value,
) -> Seq<(Seq<char>, Value)> {
    let at = find_key(pairs, key);
    if 0 <= at < pairs.len() {
        pairs.update(at, (key, value))
    } else {
        pairs.push((key, value))
    }
}

/// The place of a key is the first that holds it.
pub proof fn lemma_find_key(pairs: Seq<(Seq<char>, Value)>, key: Seq<char>, at: int)
    requires
        0 <= at <= pairs.len(),
        forall|j: int| 0 <= j < at ==> (#[trigger] pairs[j]).0 != key,
        at < pairs.len() ==> pairs[at].0 == key,
    ensures
        find_key(pairs, key) == at,
    decreases pairs.len(),
{
    if pairs.len() > 0 && at > 0 {
        let rest = pairs.drop_first();
        assert(pairs[0].0 != key);
        assert forall|j: int| 0 <= j < at - 1 implies (#[trigger] rest[j]).0 != key by {
            assert(rest[j] == pairs[j + 1]);
        }
        lemma_find_key(rest, key, at - 1);
    }
}

/// A dictionary of boxed values keyed by strings, in the order in which its
/// keys were first inserted.
pub struct VariantDict {
    entries: Vec<(String, Variant)>,
}

impl View for VariantDict {
    type V = Seq<(Seq<char>, Value)>;

    /// The keys with their values, in order.
    closed spec fn view(&self) -> Seq<(Seq<char>, Value)> {
        Seq::new(self.entries.len() as nat, |i: int| (self.entries[i].0@, self.entries[i].1@))
    }
}

impl VariantDict {
    /// The empty dictionary.
    pub fn empty() -> (r: Self)
        ensures
            r@ == Seq::<(Seq<char>, Value)>::empty(),
    {
        let r = VariantDict { entries: Vec::new() };
        assert(r@ =~= Seq::<(Seq<char>, Value)>::empty());
        r
    }

    /// The number of keys.
    pub fn len(&self) -> (n: usize)
        ensures
            n == self@.len(),
    {
        self.entries.len()
    }

    /// The dictionary as a value of type `a{sv}`: the entry of each key with
    /// its value in a box, in order.
    #[verifier::loop_isolation(false)]
    pub fn end(&self) -> (r: Variant)
        ensures
            r@ == Value::Array(entry_ty(), entries_for(self@)),
    {
        let mut items: Vec<Variant> = Vec::new();
        let mut i: usize = 0;
        while i < self.entries.len()
            invariant
                i <= self.entries.len(),
                items.len() == i,
                forall|j: int| 0 <= j < i ==> (#[trigger] items[j])@ == entries_for(self@)[j],
            decreases self.entries.len() - i,
        {
            let entry = Variant::DictEntry(
                Box::new(Variant::Str(self.entries[i].0.clone())),
                Box::new(Variant::Boxed(Box::new(self.entries[i].1.clone()))),
            );
            proof {
                reveal_with_fuel(Variant::model, 3);
            }
            items.push(entry);
            i += 1;
        }
        let r = Variant::Array(
            VariantTy::DictEntry(BasicTy::Str, Box::new(VariantTy::Variant)),
            items,
        );
        proof {
            crate::variant::lemma_variant_members(r);
            assert(values(items@) =~= entries_for(self@));
        }
        r
    }

    /// The dynamic value of the dictionary.
    pub fn as_serializable(&self) -> (r: AnyVariant<'static>)
        ensures
            r@ == Value::Array(entry_ty(), entries_for(self@)),
    {
        AnyVariant::wrap(self.end())
    }

    /// The place of `key`: the first that holds it, or the number of keys
    /// where none does.
    #[verifier::loop_isolation(false)]
    fn position(&self, key: &str) -> (at: usize)
        ensures
            at == find_key(self@, key@),
            at <= self@.len(),
    {
        let wanted = String::from_str(key);
        let mut i: usize = 0;
        while i < self.entries.len()
            invariant
                i <= self.entries.len(),
                forall|j: int| 0 <= j < i ==> (#[trigger] self@[j]).0 != key@,
            decreases self.entries.len() - i,
        {
            if self.entries[i].0 == wanted {
                proof {
                    lemma_find_key(self@, key@, i as int);
                }
                return i;
            }
            i += 1;
        }
        proof {
            lemma_find_key(self@, key@, i as int);
        }
        i
    }

    /// The value under `key`, if there is one.
    pub fn lookup_value(&self, key: &str) -> (r: Option<&Variant>)
        ensures
            ({
                let at = find_key(self@, key@);
                if at < self@.len() {
                    r matches Some(v) && v@ == self@[at].1
                } else {
                    r is None
                }
            }),
    {
        let at = self.position(key);
        if at < self.entries.len() {
            Some(&self.entries[at].1)
        } else {
            None
        }
    }

    /// Whether `key` has a value.
    pub fn contains(&self, key: &str) -> (b: bool)
        ensures
            b == (find_key(self@, key@) < self@.len()),
    {
        self.position(key) < self.entries.len()
    }

    /// Puts `value` under `key`: in the place of the value that the key had,
    /// or at the end where it had none.
    pub fn insert_value(&mut self, key: &str, value: &Variant)
        ensures
            final(self)@ == with_entry(old(self)@, key@, value@),
    {
        let at = self.position(key);
        if at < self.entries.len() {
            self.entries.set(at, (String::from_str(key), value.clone()));
        } else {
            self.entries.push((String::from_str(key), value.clone()));
        }
        assert(self@ =~= with_entry(old(self)@, key@, value@));
    }

    /// The dictionary of the entries of `from_asv`, a dictionary of boxed
    /// values keyed by strings; the empty dictionary where there is none. A
    /// key that occurs twice keeps its last value.
    #[verifier::loop_isolation(false)]
    pub fn new(from_asv: Option<&Variant>) -> (r: Self)
        ensures
            from_asv is None ==> r@ == Seq::<(Seq<char>, Value)>::empty(),
            from_asv matches Some(v) ==> r@ == collected(members(v@), members(v@).len()),
    {
        let mut dict = VariantDict::empty();
        match from_asv {
            None => dict,
            Some(v) => {
                proof {
                    crate::variant::lemma_variant_members(*v);
                }
                match v {
                    Variant::Array(_, items) => {
                        let mut i: usize = 0;
                        while i < items.len()
                            invariant
                                i <= items.len(),
                                dict@ == collected(values(items@), i as nat),
                            decreases items.len() - i,
                        {
                            proof {
                                reveal_with_fuel(Variant::model, 3);
                            }
                            match &items[i] {
                                Variant::DictEntry(k, val) => match (&**k, &**val) {
                                    (Variant::Str(key), Variant::Boxed(p)) => {
                                        dict.insert_value(key.as_str(), p);
                                    },
                                    _ => {},
                                },
                                _ => {},
                            }
                            i += 1;
                        }
                        dict
                    },
                    _ => dict,
                }
            },
        }
    }

    /// What the dictionary presents to the generic model: a map from each
    /// key to what its value presents, in order.
    #[verifier::loop_isolation(false)]
    pub fn serialize(&self) -> (r: Result<Datum, Error>)
        ensures
            match emit_values(self@, self@.len()) {
                Ok(pairs) => r matches Ok(d) && d@ == Data::Mapping(pairs),
                Err(e) => r matches Err(x) && x@ == e,
            },
    {
        let mut pairs: Vec<(Datum, Datum)> = Vec::new();
        assert(crate::datum::pairs_of(pairs@) =~= Seq::<(Data, Data)>::empty());
        let mut i: usize = 0;
        while i < self.entries.len()
            invariant
                i <= self.entries.len(),
                emit_values(self@, i as nat) == Ok::<Seq<(Data, Data)>, Failure>(
                    crate::datum::pairs_of(pairs@),
                ),
            decreases self.entries.len() - i,
        {
            match AnyVariant::borrow(&self.entries[i].1).serialize() {
                Err(e) => {
                    proof {
                        lemma_emit_values_fails(self@, (i + 1) as nat, self@.len());
                    }
                    return Err(e);
                },
                Ok(d) => {
                    let pair = (Datum::Str(self.entries[i].0.clone()), d);
                    assert(crate::datum::pairs_of(pairs@.push(pair)) =~= crate::datum::pairs_of(
                        pairs@,
                    ).push((pair.0@, pair.1@)));
                    pairs.push(pair);
                },
            }
            i += 1;
        }
        let d = Datum::Mapping(pairs);
        proof {
            crate::datum::lemma_datum_members(d);
        }
        Ok(d)
    }

    /// The dictionary that a map of the generic model makes: each key must
    /// be a string, and each value is built with no type expected of it. A
    /// key that occurs twice keeps its last value.
    #[verifier::loop_isolation(false)]
    pub fn deserialize(d: &Datum) -> (r: Result<Self, Error>)
        ensures
            match d@ {
                Data::Mapping(entries) => match built(entries, entries.len()) {
                    Ok(pairs) => r matches Ok(x) && x@ == pairs,
                    Err(e) => r matches Err(x) && x@ == e,
                },
                _ => r matches Err(x) && x@ == Failure::WrongShape,
            },
    {
        proof {
            crate::datum::lemma_datum_members(*d);
        }
        match d {
            Datum::Mapping(entries) => {
                let ghost all = crate::datum::pairs_of(entries@);
                let mut dict = VariantDict::empty();
                let mut i: usize = 0;
                while i < entries.len()
                    invariant
                        i <= entries.len(),
                        built(all, i as nat) == Ok::<Seq<(Seq<char>, Value)>, Failure>(dict@),
                    decreases entries.len() - i,
                {
                    assert(all[i as int] == (entries[i as int].0@, entries[i as int].1@));
                    let key = match &entries[i].0 {
                        Datum::Str(s) => s,
                        _ => {
                            proof {
                                lemma_built_fails(all, (i + 1) as nat, all.len());
                            }
                            return Err(Error::WrongShape);
                        },
                    };
                    match crate::any_variant::deserialize(&entries[i].1) {
                        Err(e) => {
                            proof {
                                lemma_built_fails(all, (i + 1) as nat, all.len());
                            }
                            return Err(e);
                        },
                        Ok(v) => {
                            dict.insert_value(key.as_str(), &v);
                        },
                    }
                    i += 1;
                }
                Ok(dict)
            },
            _ => Err(Error::WrongShape),
        }
    }
}

/// What a dictionary presents to the generic model.
pub fn serialize(dict: &VariantDict) -> (r: Result<Datum, Error>)
    ensures
        match emit_values(dict@, dict@.len()) {
            Ok(pairs) => r matches Ok(d) && d@ == Data::Mapping(pairs),
            Err(e) => r matches Err(x) && x@ == e,
        },
{
    dict.serialize()
}

/// The dictionary that a map of the generic model makes.
pub fn deserialize(d: &Datum) -> (r: Result<VariantDict, Error>)
    ensures
        match d@ {
            Data::Mapping(entries) => match built(entries, entries.len()) {
                Ok(pairs) => r matches Ok(x) && x@ == pairs,
                Err(e) => r matches Err(x) && x@ == e,
            },
            _ => r matches Err(x) && x@ == Failure::WrongShape,
        },
{
    VariantDict::deserialize(d)
}

/// The dictionary of the first `n` of `items`: each entry of a string key and
/// a boxed value is inserted in turn, and anything else is passed over.
pub open spec fn collected(items: Seq<Value>, n: nat) -> Seq<(Seq<char>, Value)>
    decreases n,
{
    if n == 0 || n > items.len() {
        Seq::empty()
    } else {
        let before = collected(items, (n - 1) as nat);
        match items[n - 1] {
            Value::DictEntry(k, v) => match (*k, *v) {
                (Value::Str(key), Value::Boxed(p)) => with_entry(before, key, *p),
                _ => before,
            },
            _ => before,
        }
    }
}

/// What the values of the first `n` of `pairs` present, each with its key.
pub open spec fn emit_values(pairs: Seq<(Seq<char>, Value)>, n: nat) -> Result<
    Seq<(Data, Data)>,
    Failure,
>
    decreases n,
{
    if n == 0 || n > pairs.len() {
        Ok(Seq::empty())
    } else {
        match emit_values(pairs, (n - 1) as nat) {
            Err(e) => Err(e),
            Ok(out) => match emit(pairs[n - 1].1) {
                Err(e) => Err(e),
                Ok(d) => Ok(out.push((Data::Str(pairs[n - 1].0), d))),
            },
        }
    }
}

/// The dictionary that the first `n` of `entries` make: each key must be a
/// string, each value is built with no type expected of it, and each is
/// inserted in turn.
pub open spec fn built(entries: Seq<(Data, Data)>, n: nat) -> Result<
    Seq<(Seq<char>, Value)>,
    Failure,
>
    decreases n,
{
    if n == 0 || n > entries.len() {
        Ok(Seq::empty())
    } else {
        match built(entries, (n - 1) as nat) {
            Err(e) => Err(e),
            Ok(before) => match entries[n - 1].0 {
                Data::Str(key) => match crate::any_variant::build(entries[n - 1].1) {
                    Err(e) => Err(e),
                    Ok(v) => Ok(with_entry(before, key, v)),
                },
                _ => Err(Failure::WrongShape),
            },
        }
    }
}

/// A failure among the first values is the failure of the whole dictionary.
pub proof fn lemma_emit_values_fails(pairs: Seq<(Seq<char>, Value)>, n: nat, k: nat)
    requires
        emit_values(pairs, n) is Err,
        n <= k <= pairs.len(),
    ensures
        emit_values(pairs, k) == emit_values(pairs, n),
    decreases k - n,
{
    if n < k {
        lemma_emit_values_fails(pairs, n, (k - 1) as nat);
    }
}

/// A failure among the first entries is the failure of the whole dictionary.
pub proof fn lemma_built_fails(entries: Seq<(Data, Data)>, n: nat, k: nat)
    requires
        built(entries, n) is Err,
        n <= k <= entries.len(),
    ensures
        built(entries, k) == built(entries, n),
    decreases k - n,
{
    if n < k {
        lemma_built_fails(entries, n, (k - 1) as nat);
    }
}

} // verus!
