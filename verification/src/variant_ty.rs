//! Type descriptors of the variant format.

use crate::error::{Error, Failure};
use vstd::prelude::*;

verus! {

/// The one-character types that may key a dictionary entry.
#[derive(Clone, Copy, Debug, PartialEq, Eq, Hash, Structural)]
pub enum BasicTy {
    Boolean,
    Byte,
    Int16,
    Uint16,
    Int32,
    Uint32,
    Int64,
    Uint64,
    Handle,
    Double,
    Str,
    ObjectPath,
    Signature,
    /// The indefinite type `?`, which every basic type matches.
    Wild,
}

/// Mathematical model of a type descriptor.
pub enum Ty {
    Basic(BasicTy),
    Variant,
    Any,
    AnyTuple,
    Maybe(Box<Ty>),
    Array(Box<Ty>),
    Tuple(Seq<Ty>),
    DictEntry(BasicTy, Box<Ty>),
}

/// A type descriptor.
#[derive(Debug, PartialEq, Eq, Hash)]
pub enum VariantTy {
    Basic(BasicTy),
    Variant,
    Any,
    AnyTuple,
    Maybe(Box<VariantTy>),
    Array(Box<VariantTy>),
    Tuple(Vec<VariantTy>),
    DictEntry(BasicTy, Box<VariantTy>),
}

impl VariantTy {
    /// The mathematical model of this descriptor.
    pub open spec fn model(self) -> Ty
        decreases self,
    {
        match self {
            VariantTy::Basic(b) => Ty::Basic(b),
            VariantTy::Variant => Ty::Variant,
            VariantTy::Any => Ty::Any,
            VariantTy::AnyTuple => Ty::AnyTuple,
            VariantTy::Maybe(e) => Ty::Maybe(Box::new(e.model())),
            VariantTy::Array(e) => Ty::Array(Box::new(e.model())),
            VariantTy::Tuple(items) => Ty::Tuple(
                Seq::new(
                    items.len() as nat,
                    |i: int|
                        if 0 <= i < items.len() {
                            items[i].model()
                        } else {
                            Ty::Any
                        },
                ),
            ),
            VariantTy::DictEntry(k, v) => Ty::DictEntry(k, Box::new(v.model())),
        }
    }
}

impl View for VariantTy {
    type V = Ty;

    open spec fn view(&self) -> Ty {
        self.model()
    }
}

impl BasicTy {
    /// The character that stands for this type in a signature.
    pub open spec fn letter(self) -> char {
        match self {
            BasicTy::Boolean => 'b',
            BasicTy::Byte => 'y',
            BasicTy::Int16 => 'n',
            BasicTy::Uint16 => 'q',
            BasicTy::Int32 => 'i',
            BasicTy::Uint32 => 'u',
            BasicTy::Int64 => 'x',
            BasicTy::Uint64 => 't',
            BasicTy::Handle => 'h',
            BasicTy::Double => 'd',
            BasicTy::Str => 's',
            BasicTy::ObjectPath => 'o',
            BasicTy::Signature => 'g',
            BasicTy::Wild => '?',
        }
    }

    /// Whether a value of basic type `self` is admitted where `pattern` is asked for.
    pub open spec fn matches_basic(self, pattern: BasicTy) -> bool {
        pattern == BasicTy::Wild || self == pattern
    }
}

impl Ty {
    pub open spec fn is_basic(self) -> bool {
        self is Basic
    }

    pub open spec fn is_tuple(self) -> bool {
        self is Tuple || self is AnyTuple
    }

    pub open spec fn is_container(self) -> bool {
        self is Maybe || self is Array || self is Tuple || self is AnyTuple || self is DictEntry
            || self is Variant
    }

    /// The members of a definite tuple or dictionary-entry type, in order.
    pub open spec fn members(self) -> Seq<Ty> {
        match self {
            Ty::Tuple(items) => items,
            Ty::DictEntry(k, v) => seq![Ty::Basic(k), *v],
            _ => Seq::empty(),
        }
    }

    /// Whether the members of this type can be listed: a tuple with known
    /// members, or a dictionary entry.
    pub open spec fn has_members(self) -> bool {
        self is Tuple || self is DictEntry
    }
}

/// A type is definite when no placeholder occurs in it.
pub open spec fn definite(t: Ty) -> bool
    decreases t,
{
    match t {
        Ty::Basic(b) => b != BasicTy::Wild,
        Ty::Variant => true,
        Ty::Any => false,
        Ty::AnyTuple => false,
        Ty::Maybe(e) => definite(*e),
        Ty::Array(e) => definite(*e),
        Ty::DictEntry(k, v) => k != BasicTy::Wild && definite(*v),
        Ty::Tuple(items) => forall|i: int| 0 <= i < items.len() ==> definite(#[trigger] items[i]),
    }
}

/// `subtype(t, s)` holds when every value of type `t` is admitted where `s` is
/// asked for: the two agree wherever `s` is definite, and a placeholder of `s`
/// admits what it stands for.
pub open spec fn subtype(t: Ty, s: Ty) -> bool
    decreases s,
{
    match s {
        Ty::Any => true,
        Ty::AnyTuple => t.is_tuple(),
        Ty::Basic(b) => t matches Ty::Basic(a) && a.matches_basic(b),
        Ty::Variant => t is Variant,
        Ty::Maybe(se) => t matches Ty::Maybe(te) && subtype(*te, *se),
        Ty::Array(se) => t matches Ty::Array(te) && subtype(*te, *se),
        Ty::DictEntry(sk, sv) => t matches Ty::DictEntry(tk, tv) && tk.matches_basic(sk)
            && subtype(*tv, *sv),
        Ty::Tuple(ss) => t matches Ty::Tuple(ts) && ts.len() == ss.len() && forall|i: int|
            0 <= i < ss.len() ==> subtype(ts[i], #[trigger] ss[i]),
    }
}

/// The signature of a type: its canonical text.
pub open spec fn signature(t: Ty) -> Seq<char>
    decreases t, 1nat,
{
    match t {
        Ty::Basic(b) => seq![b.letter()],
        Ty::Variant => seq!['v'],
        Ty::Any => seq!['*'],
        Ty::AnyTuple => seq!['r'],
        Ty::Maybe(e) => seq!['m'] + signature(*e),
        Ty::Array(e) => seq!['a'] + signature(*e),
        Ty::DictEntry(k, v) => seq!['{', k.letter()] + signature(*v) + seq!['}'],
        Ty::Tuple(items) => seq!['('] + signatures(items) + seq![')'],
    }
}

/// The signatures of `items`, one after the other.
pub open spec fn signatures(items: Seq<Ty>) -> Seq<char>
    decreases items, 0nat,
{
    if items.len() == 0 {
        Seq::empty()
    } else {
        signature(items[0]) + signatures(items.drop_first())
    }
}

/// The basic type that a character stands for.
pub open spec fn basic_of(c: char) -> Option<BasicTy> {
    if c == 'b' {
        Some(BasicTy::Boolean)
    } else if c == 'y' {
        Some(BasicTy::Byte)
    } else if c == 'n' {
        Some(BasicTy::Int16)
    } else if c == 'q' {
        Some(BasicTy::Uint16)
    } else if c == 'i' {
        Some(BasicTy::Int32)
    } else if c == 'u' {
        Some(BasicTy::Uint32)
    } else if c == 'x' {
        Some(BasicTy::Int64)
    } else if c == 't' {
        Some(BasicTy::Uint64)
    } else if c == 'h' {
        Some(BasicTy::Handle)
    } else if c == 'd' {
        Some(BasicTy::Double)
    } else if c == 's' {
        Some(BasicTy::Str)
    } else if c == 'o' {
        Some(BasicTy::ObjectPath)
    } else if c == 'g' {
        Some(BasicTy::Signature)
    } else if c == '?' {
        Some(BasicTy::Wild)
    } else {
        None
    }
}

/// Reads one type from the head of `s`: the type and what follows it, or
/// `None` where `s` does not begin with a signature.
pub open spec fn parse_ty(s: Seq<char>) -> Option<(Ty, Seq<char>)>
    decreases s.len(), 0nat,
{
    if s.len() == 0 {
        None
    } else {
        let c = s[0];
        let rest = s.drop_first();
        match basic_of(c) {
            Some(k) => Some((Ty::Basic(k), rest)),
            None => if c == 'v' {
                Some((Ty::Variant, rest))
            } else if c == '*' {
                Some((Ty::Any, rest))
            } else if c == 'r' {
                Some((Ty::AnyTuple, rest))
            } else if c == 'm' {
                match parse_ty(rest) {
                    Some((e, after)) => Some((Ty::Maybe(Box::new(e)), after)),
                    None => None,
                }
            } else if c == 'a' {
                match parse_ty(rest) {
                    Some((e, after)) => Some((Ty::Array(Box::new(e)), after)),
                    None => None,
                }
            } else if c == '{' {
                if rest.len() == 0 {
                    None
                } else {
                    match (basic_of(rest[0]), parse_ty(rest.drop_first())) {
                        (Some(k), Some((v, after))) => if after.len() > 0 && after[0] == '}' {
                            Some((Ty::DictEntry(k, Box::new(v)), after.drop_first()))
                        } else {
                            None
                        },
                        _ => None,
                    }
                }
            } else if c == '(' {
                match parse_items(rest) {
                    Some((items, after)) => Some((Ty::Tuple(items), after)),
                    None => None,
                }
            } else {
                None
            },
        }
    }
}

/// Reads the members of a tuple up to and with its closing bracket.
pub open spec fn parse_items(s: Seq<char>) -> Option<(Seq<Ty>, Seq<char>)>
    decreases s.len(), 1nat,
{
    if s.len() == 0 {
        None
    } else if s[0] == ')' {
        Some((Seq::empty(), s.drop_first()))
    } else {
        match parse_ty(s) {
            Some((t, after)) => if after.len() < s.len() {
                match parse_items(after) {
                    Some((items, end)) => Some((seq![t] + items, end)),
                    None => None,
                }
            } else {
                None
            },
            None => None,
        }
    }
}

/// What `parse_ty` reads is the signature of the type it returns.
pub proof fn lemma_parse_sound(s: Seq<char>)
    ensures
        parse_ty(s) matches Some((t, after)) ==> s == signature(t) + after,
    decreases s.len(), 0nat,
{
    if s.len() > 0 && parse_ty(s) is Some {
        let c = s[0];
        let rest = s.drop_first();
        let (t, after) = parse_ty(s)->Some_0;
        assert(s =~= seq![c] + rest);
        if basic_of(c) is Some {
            assert(s =~= signature(t) + after);
        } else if c == 'v' || c == '*' || c == 'r' {
            assert(s =~= signature(t) + after);
        } else if c == 'm' || c == 'a' {
            lemma_parse_sound(rest);
            let e = parse_ty(rest)->Some_0.0;
            assert(rest == signature(e) + after);
            assert(s =~= signature(t) + after);
        } else if c == '{' {
            let inner = rest.drop_first();
            assert(rest =~= seq![rest[0]] + inner);
            lemma_parse_sound(inner);
            let (v, mid) = parse_ty(inner)->Some_0;
            assert(inner == signature(v) + mid);
            assert(mid =~= seq!['}'] + after);
            assert(s =~= seq!['{', rest[0]] + signature(v) + seq!['}'] + after);
        } else {
            lemma_parse_items_sound(rest);
            let items = parse_items(rest)->Some_0.0;
            assert(rest == signatures(items) + seq![')'] + after);
            assert(s =~= seq!['('] + signatures(items) + seq![')'] + after);
        }
    }
}

/// What `parse_items` reads is the signatures of the members it returns and a
/// closing bracket.
pub proof fn lemma_parse_items_sound(s: Seq<char>)
    ensures
        parse_items(s) matches Some((items, after)) ==> s == signatures(items) + seq![')'] + after,
    decreases s.len(), 1nat,
{
    if s.len() > 0 && parse_items(s) is Some {
        let (items, after) = parse_items(s)->Some_0;
        if s[0] == ')' {
            assert(s =~= seq![')'] + s.drop_first());
            assert(signatures(items) =~= Seq::<char>::empty());
            assert(s =~= signatures(items) + seq![')'] + after);
        } else {
            lemma_parse_sound(s);
            let (t, mid) = parse_ty(s)->Some_0;
            lemma_parse_items_sound(mid);
            let tail = parse_items(mid)->Some_0.0;
            assert(items == seq![t] + tail);
            assert(items[0] == t);
            assert(items.drop_first() =~= tail);
            assert(signatures(items) == signature(t) + signatures(tail));
            assert(s =~= signatures(items) + seq![')'] + after);
        }
    }
}

/// A signature, whatever follows it, is read back as the type it was written
/// from.
pub proof fn lemma_parse_complete(t: Ty, after: Seq<char>)
    ensures
        parse_ty(signature(t) + after) == Some((t, after)),
    decreases t, 1nat,
{
    let s = signature(t) + after;
    assert(s.len() > 0);
    let rest = s.drop_first();
    match t {
        Ty::Basic(k) => {
            assert(rest =~= after);
        },
        Ty::Variant => {
            assert(rest =~= after);
        },
        Ty::Any => {
            assert(rest =~= after);
        },
        Ty::AnyTuple => {
            assert(rest =~= after);
        },
        Ty::Maybe(e) => {
            assert(rest =~= signature(*e) + after);
            lemma_parse_complete(*e, after);
        },
        Ty::Array(e) => {
            assert(rest =~= signature(*e) + after);
            lemma_parse_complete(*e, after);
        },
        Ty::DictEntry(k, v) => {
            let close = seq!['}'] + after;
            assert(rest.drop_first() =~= signature(*v) + close);
            assert(rest[0] == k.letter());
            lemma_parse_complete(*v, close);
            assert(close.drop_first() =~= after);
        },
        Ty::Tuple(items) => {
            assert(rest =~= signatures(items) + seq![')'] + after);
            lemma_parse_items_complete(items, after);
        },
    }
}

/// The signatures of the members of a tuple, closed by a bracket, are read
/// back as those members.
pub proof fn lemma_parse_items_complete(items: Seq<Ty>, after: Seq<char>)
    ensures
        parse_items(signatures(items) + seq![')'] + after) == Some((items, after)),
    decreases items, 0nat,
{
    let s = signatures(items) + seq![')'] + after;
    if items.len() == 0 {
        assert(s.drop_first() =~= after);
    } else {
        let tail = items.drop_first();
        let mid = signatures(tail) + seq![')'] + after;
        assert(s =~= signature(items[0]) + mid);
        lemma_signature_first(items[0]);
        lemma_parse_complete(items[0], mid);
        lemma_parse_items_complete(tail, after);
        assert(seq![items[0]] + tail =~= items);
    }
}

/// No signature is empty, and none begins with a closing bracket.
pub proof fn lemma_signature_first(t: Ty)
    ensures
        signature(t).len() > 0,
        signature(t)[0] != ')',
{
}

/// The signatures of a list with one more member end with that member's.
pub proof fn lemma_signatures_push(items: Seq<Ty>, t: Ty)
    ensures
        signatures(items.push(t)) == signatures(items) + signature(t),
    decreases items.len(),
{
    let all = items.push(t);
    if items.len() == 0 {
        assert(all.drop_first() =~= Seq::<Ty>::empty());
        assert(signatures(all.drop_first()) =~= Seq::<char>::empty());
        assert(signatures(all) =~= signature(t));
        assert(signatures(items) + signature(t) =~= signature(t));
    } else {
        assert(all.drop_first() =~= items.drop_first().push(t));
        lemma_signatures_push(items.drop_first(), t);
        assert(signatures(all) =~= signatures(items) + signature(t));
    }
}

/// Two types with the same signature are the same type.
pub proof fn lemma_signature_injective(a: Ty, b: Ty)
    requires
        signature(a) == signature(b),
    ensures
        a == b,
{
    lemma_parse_complete(a, Seq::empty());
    lemma_parse_complete(b, Seq::empty());
}

/// The models of a list of descriptors.
pub open spec fn models(items: Seq<VariantTy>) -> Seq<Ty> {
    Seq::new(items.len(), |i: int| items[i]@)
}

impl Clone for VariantTy {
    #[verifier::loop_isolation(false)]
    fn clone(&self) -> (r: Self)
        ensures
            r@ == self@,
        decreases self,
    {
        match self {
            VariantTy::Basic(b) => VariantTy::Basic(*b),
            VariantTy::Variant => VariantTy::Variant,
            VariantTy::Any => VariantTy::Any,
            VariantTy::AnyTuple => VariantTy::AnyTuple,
            VariantTy::Maybe(e) => VariantTy::Maybe(Box::new((**e).clone())),
            VariantTy::Array(e) => VariantTy::Array(Box::new((**e).clone())),
            VariantTy::Tuple(items) => {
                let mut out: Vec<VariantTy> = Vec::new();
                let mut i: usize = 0;
                while i < items.len()
                    invariant
                        i <= items.len(),
                        out.len() == i,
                        forall|j: int| 0 <= j < i ==> out[j]@ == items[j]@,
                    decreases items.len() - i,
                {
                    out.push(items[i].clone());
                    i += 1;
                }
                let r = VariantTy::Tuple(out);
                assert(r@->Tuple_0 =~= self@->Tuple_0);
                r
            },
            VariantTy::DictEntry(k, v) => VariantTy::DictEntry(*k, Box::new((**v).clone())),
        }
    }
}

impl VariantTy {
    #[verifier::loop_isolation(false)]
    pub fn equals(&self, other: &VariantTy) -> (b: bool)
        ensures
            b == (self@ == other@),
        decreases self,
    {
        match (self, other) {
            (VariantTy::Basic(a), VariantTy::Basic(b)) => *a == *b,
            (VariantTy::Variant, VariantTy::Variant) => true,
            (VariantTy::Any, VariantTy::Any) => true,
            (VariantTy::AnyTuple, VariantTy::AnyTuple) => true,
            (VariantTy::Maybe(a), VariantTy::Maybe(b)) => a.equals(b),
            (VariantTy::Array(a), VariantTy::Array(b)) => a.equals(b),
            (VariantTy::DictEntry(ak, av), VariantTy::DictEntry(bk, bv)) => *ak == *bk && av.equals(bv),
            (VariantTy::Tuple(a), VariantTy::Tuple(b)) => {
                if a.len() != b.len() {
                    assert(self@->Tuple_0.len() != other@->Tuple_0.len());
                    return false;
                }
                let mut i: usize = 0;
                while i < a.len()
                    invariant
                        i <= a.len(),
                        a.len() == b.len(),
                        forall|j: int| 0 <= j < i ==> a[j]@ == b[j]@,
                    decreases a.len() - i,
                {
                    if !a[i].equals(&b[i]) {
                        assert(self@->Tuple_0[i as int] == a[i as int]@);
                        assert(other@->Tuple_0[i as int] == b[i as int]@);
                        return false;
                    }
                    i += 1;
                }
                assert(self@->Tuple_0 =~= other@->Tuple_0);
                true
            },
            _ => false,
        }
    }

    /// The type `v` of boxed values.
    pub fn variant() -> (r: VariantTy)
        ensures
            r@ == Ty::Variant,
    {
        VariantTy::Variant
    }

    /// The type `s`.
    pub fn string() -> (r: VariantTy)
        ensures
            r@ == Ty::Basic(BasicTy::Str),
    {
        VariantTy::Basic(BasicTy::Str)
    }

    /// The type `()` of the empty tuple.
    pub fn unit() -> (r: VariantTy)
        ensures
            r@ == Ty::Tuple(Seq::empty()),
    {
        let r = VariantTy::Tuple(Vec::new());
        assert(r@->Tuple_0 =~= Seq::empty());
        r
    }

    /// The indefinite type `r` of all tuples.
    pub fn tuple() -> (r: VariantTy)
        ensures
            r@ == Ty::AnyTuple,
    {
        VariantTy::AnyTuple
    }

    /// The indefinite type `a*` of all arrays.
    pub fn array() -> (r: VariantTy)
        ensures
            r@ == Ty::Array(Box::new(Ty::Any)),
    {
        proof {
            reveal_with_fuel(VariantTy::model, 3);
        }
        VariantTy::Array(Box::new(VariantTy::Any))
    }

    /// The indefinite type `m*` of all optional values.
    pub fn maybe() -> (r: VariantTy)
        ensures
            r@ == Ty::Maybe(Box::new(Ty::Any)),
    {
        proof {
            reveal_with_fuel(VariantTy::model, 3);
        }
        VariantTy::Maybe(Box::new(VariantTy::Any))
    }

    /// The indefinite type `{?*}` of all dictionary entries.
    pub fn dict_entry() -> (r: VariantTy)
        ensures
            r@ == Ty::DictEntry(BasicTy::Wild, Box::new(Ty::Any)),
    {
        proof {
            reveal_with_fuel(VariantTy::model, 3);
        }
        VariantTy::DictEntry(BasicTy::Wild, Box::new(VariantTy::Any))
    }

    /// The indefinite type `a{?*}` of all dictionaries.
    pub fn dictionary() -> (r: VariantTy)
        ensures
            r@ == Ty::Array(Box::new(Ty::DictEntry(BasicTy::Wild, Box::new(Ty::Any)))),
    {
        proof {
            reveal_with_fuel(VariantTy::model, 3);
        }
        VariantTy::Array(Box::new(VariantTy::dict_entry()))
    }

    /// The type `ay` of byte strings.
    pub fn byte_string() -> (r: VariantTy)
        ensures
            r@ == Ty::Array(Box::new(Ty::Basic(BasicTy::Byte))),
    {
        proof {
            reveal_with_fuel(VariantTy::model, 3);
        }
        VariantTy::Array(Box::new(VariantTy::Basic(BasicTy::Byte)))
    }

    /// The type `a{sv}` of string-keyed dictionaries of boxed values.
    pub fn vardict() -> (r: VariantTy)
        ensures
            r@ == Ty::Array(
                Box::new(Ty::DictEntry(BasicTy::Str, Box::new(Ty::Variant))),
            ),
    {
        proof {
            reveal_with_fuel(VariantTy::model, 3);
        }
        VariantTy::Array(
            Box::new(VariantTy::DictEntry(BasicTy::Str, Box::new(VariantTy::Variant))),
        )
    }

    /// The type of a dictionary entry from `key` to `value`; `None` when `key`
    /// is not a basic type.
    pub fn new_dict_entry(key: &VariantTy, value: &VariantTy) -> (r: Option<VariantTy>)
        ensures
            match key@ {
                Ty::Basic(k) => r matches Some(t) && t@ == Ty::DictEntry(k, Box::new(value@)),
                _ => r is None,
            },
    {
        match key {
            VariantTy::Basic(k) => Some(VariantTy::DictEntry(*k, Box::new(value.clone()))),
            _ => None,
        }
    }

    pub fn is_basic(&self) -> (b: bool)
        ensures
            b == self@.is_basic(),
    {
        match self {
            VariantTy::Basic(_) => true,
            _ => false,
        }
    }

    pub fn is_variant(&self) -> (b: bool)
        ensures
            b == (self@ is Variant),
    {
        match self {
            VariantTy::Variant => true,
            _ => false,
        }
    }

    pub fn is_maybe(&self) -> (b: bool)
        ensures
            b == (self@ is Maybe),
    {
        match self {
            VariantTy::Maybe(_) => true,
            _ => false,
        }
    }

    pub fn is_array(&self) -> (b: bool)
        ensures
            b == (self@ is Array),
    {
        match self {
            VariantTy::Array(_) => true,
            _ => false,
        }
    }

    /// Whether this is a tuple type, the indefinite `r` included.
    pub fn is_tuple(&self) -> (b: bool)
        ensures
            b == self@.is_tuple(),
    {
        match self {
            VariantTy::Tuple(_) => true,
            VariantTy::AnyTuple => true,
            _ => false,
        }
    }

    pub fn is_dict_entry(&self) -> (b: bool)
        ensures
            b == (self@ is DictEntry),
    {
        match self {
            VariantTy::DictEntry(_, _) => true,
            _ => false,
        }
    }

    pub fn is_container(&self) -> (b: bool)
        ensures
            b == self@.is_container(),
    {
        match self {
            VariantTy::Basic(_) => false,
            VariantTy::Any => false,
            _ => true,
        }
    }

    /// Whether no placeholder occurs in this type.
    #[verifier::loop_isolation(false)]
    pub fn is_definite(&self) -> (b: bool)
        ensures
            b == definite(self@),
        decreases self,
    {
        match self {
            VariantTy::Basic(k) => *k != BasicTy::Wild,
            VariantTy::Variant => true,
            VariantTy::Any => false,
            VariantTy::AnyTuple => false,
            VariantTy::Maybe(e) => e.is_definite(),
            VariantTy::Array(e) => e.is_definite(),
            VariantTy::DictEntry(k, v) => *k != BasicTy::Wild && v.is_definite(),
            VariantTy::Tuple(items) => {
                let mut i: usize = 0;
                while i < items.len()
                    invariant
                        i <= items.len(),
                        forall|j: int| 0 <= j < i ==> definite(#[trigger] self@->Tuple_0[j]),
                    decreases items.len() - i,
                {
                    if !items[i].is_definite() {
                        assert(!definite(self@->Tuple_0[i as int]));
                        return false;
                    }
                    i += 1;
                }
                true
            },
        }
    }

    /// Whether every value of this type is admitted where `supertype` is asked for.
    #[verifier::loop_isolation(false)]
    pub fn is_subtype_of(&self, supertype: &VariantTy) -> (b: bool)
        ensures
            b == subtype(self@, supertype@),
        decreases supertype,
    {
        match supertype {
            VariantTy::Any => true,
            VariantTy::AnyTuple => self.is_tuple(),
            VariantTy::Variant => self.is_variant(),
            VariantTy::Basic(pattern) => match self {
                VariantTy::Basic(k) => *pattern == BasicTy::Wild || *k == *pattern,
                _ => false,
            },
            VariantTy::Maybe(se) => match self {
                VariantTy::Maybe(te) => te.is_subtype_of(se),
                _ => false,
            },
            VariantTy::Array(se) => match self {
                VariantTy::Array(te) => te.is_subtype_of(se),
                _ => false,
            },
            VariantTy::DictEntry(sk, sv) => match self {
                VariantTy::DictEntry(tk, tv) => (*sk == BasicTy::Wild || *tk == *sk)
                    && tv.is_subtype_of(sv),
                _ => false,
            },
            VariantTy::Tuple(ss) => match self {
                VariantTy::Tuple(ts) => {
                    if ts.len() != ss.len() {
                        return false;
                    }
                    let mut i: usize = 0;
                    while i < ss.len()
                        invariant
                            i <= ss.len(),
                            ts.len() == ss.len(),
                            forall|j: int|
                                0 <= j < i ==> subtype(
                                    self@->Tuple_0[j],
                                    #[trigger] supertype@->Tuple_0[j],
                                ),
                        decreases ss.len() - i,
                    {
                        if !ts[i].is_subtype_of(&ss[i]) {
                            assert(!subtype(self@->Tuple_0[i as int], supertype@->Tuple_0[i as int]));
                            return false;
                        }
                        i += 1;
                    }
                    true
                },
                _ => false,
            },
        }
    }

    /// The element type of an array or maybe type.
    pub fn element(&self) -> (r: Result<&VariantTy, Error>)
        ensures
            match self@ {
                Ty::Array(e) => r matches Ok(t) && t@ == *e,
                Ty::Maybe(e) => r matches Ok(t) && t@ == *e,
                _ => r matches Err(e) && e@ == Failure::WrongShape,
            },
    {
        match self {
            VariantTy::Array(e) => Ok(&**e),
            VariantTy::Maybe(e) => Ok(&**e),
            _ => Err(Error::WrongShape),
        }
    }

    /// The key type of a dictionary-entry type.
    pub fn key(&self) -> (r: Result<VariantTy, Error>)
        ensures
            match self@ {
                Ty::DictEntry(k, _) => r matches Ok(t) && t@ == Ty::Basic(k),
                _ => r matches Err(e) && e@ == Failure::WrongShape,
            },
    {
        match self {
            VariantTy::DictEntry(k, _) => Ok(VariantTy::Basic(*k)),
            _ => Err(Error::WrongShape),
        }
    }

    /// The value type of a dictionary-entry type.
    pub fn value(&self) -> (r: Result<&VariantTy, Error>)
        ensures
            match self@ {
                Ty::DictEntry(_, v) => r matches Ok(t) && t@ == *v,
                _ => r matches Err(e) && e@ == Failure::WrongShape,
            },
    {
        match self {
            VariantTy::DictEntry(_, v) => Ok(&**v),
            _ => Err(Error::WrongShape),
        }
    }

    /// The number of members of a tuple or dictionary-entry type.
    pub fn n_items(&self) -> (r: Result<usize, Error>)
        ensures
            self@.has_members() ==> r == Ok::<usize, Error>(self@.members().len() as usize),
            !self@.has_members() ==> (r matches Err(e) && e@ == Failure::WrongShape),
    {
        match self {
            VariantTy::Tuple(items) => Ok(items.len()),
            VariantTy::DictEntry(_, _) => Ok(2),
            _ => Err(Error::WrongShape),
        }
    }

    /// Reads a type from its signature. Fails with `Syntax` exactly where
    /// `text` is the signature of no type.
    pub fn new(text: &str) -> (r: Result<VariantTy, Error>)
        ensures
            r matches Ok(t) ==> signature(t@) == text@,
            r matches Err(e) ==> e@ == Failure::Syntax && forall|t: Ty| signature(t) != text@,
    {
        let len = text.unicode_len();
        proof {
            lemma_parse_sound(text@);
            assert(text@.skip(0) =~= text@);
            assert forall|t: Ty| signature(t) == text@ implies parse_ty(text@) == Some(
                (t, Seq::<char>::empty()),
            ) by {
                lemma_parse_complete(t, Seq::empty());
                assert(signature(t) + Seq::<char>::empty() =~= signature(t));
            }
        }
        match parse_at(text, len, 0) {
            Some((t, end)) => {
                if end == len {
                    proof {
                        assert(text@.skip(end as int) =~= Seq::<char>::empty());
                        assert(signature(t@) + Seq::<char>::empty() =~= signature(t@));
                    }
                    Ok(t)
                } else {
                    Err(Error::Syntax)
                }
            },
            None => Err(Error::Syntax),
        }
    }

    /// The signature of this type.
    pub fn signature(&self) -> (r: String)
        ensures
            r@ == signature(self@),
    {
        let mut out = String::new();
        self.write_signature(&mut out);
        assert(Seq::<char>::empty() + signature(self@) =~= signature(self@));
        out
    }

    /// Appends the signature of this type to `out`.
    #[verifier::loop_isolation(false)]
    pub fn write_signature(&self, out: &mut String)
        ensures
            final(out)@ == old(out)@ + signature(self@),
        decreases self,
    {
        match self {
            VariantTy::Basic(k) => {
                out.append(k.as_str());
            },
            VariantTy::Variant => {
                proof {
                    reveal_strlit("v");
                }
                out.append("v");
                assert(out@ =~= old(out)@ + seq!['v']);
            },
            VariantTy::Any => {
                proof {
                    reveal_strlit("*");
                }
                out.append("*");
                assert(out@ =~= old(out)@ + seq!['*']);
            },
            VariantTy::AnyTuple => {
                proof {
                    reveal_strlit("r");
                }
                out.append("r");
                assert(out@ =~= old(out)@ + seq!['r']);
            },
            VariantTy::Maybe(e) => {
                proof {
                    reveal_strlit("m");
                }
                out.append("m");
                e.write_signature(out);
                assert(out@ =~= old(out)@ + (seq!['m'] + signature(e@)));
            },
            VariantTy::Array(e) => {
                proof {
                    reveal_strlit("a");
                }
                out.append("a");
                e.write_signature(out);
                assert(out@ =~= old(out)@ + (seq!['a'] + signature(e@)));
            },
            VariantTy::DictEntry(k, v) => {
                proof {
                    reveal_strlit("{");
                    reveal_strlit("}");
                }
                out.append("{");
                out.append(k.as_str());
                v.write_signature(out);
                out.append("}");
                assert(out@ =~= old(out)@ + (seq!['{', k.letter()] + signature(v@) + seq!['}']));
            },
            VariantTy::Tuple(items) => {
                proof {
                    reveal_strlit("(");
                    reveal_strlit(")");
                }
                out.append("(");
                let ghost all = self@->Tuple_0;
                let mut i: usize = 0;
                assert(all.take(0) =~= Seq::<Ty>::empty());
                while i < items.len()
                    invariant
                        i <= items.len(),
                        out@ == old(out)@ + seq!['('] + signatures(all.take(i as int)),
                    decreases items.len() - i,
                {
                    items[i].write_signature(out);
                    proof {
                        lemma_signatures_push(all.take(i as int), all[i as int]);
                        assert(all.take(i as int).push(all[i as int]) =~= all.take(i + 1));
                    }
                    i += 1;
                }
                out.append(")");
                assert(all.take(i as int) =~= all);
                assert(out@ =~= old(out)@ + (seq!['('] + signatures(all) + seq![')']));
            },
        }
    }
}

impl BasicTy {
    /// The basic type that `c` stands for in a signature.
    pub fn from_char(c: char) -> (r: Option<BasicTy>)
        ensures
            r == basic_of(c),
    {
        if c == 'b' {
            Some(BasicTy::Boolean)
        } else if c == 'y' {
            Some(BasicTy::Byte)
        } else if c == 'n' {
            Some(BasicTy::Int16)
        } else if c == 'q' {
            Some(BasicTy::Uint16)
        } else if c == 'i' {
            Some(BasicTy::Int32)
        } else if c == 'u' {
            Some(BasicTy::Uint32)
        } else if c == 'x' {
            Some(BasicTy::Int64)
        } else if c == 't' {
            Some(BasicTy::Uint64)
        } else if c == 'h' {
            Some(BasicTy::Handle)
        } else if c == 'd' {
            Some(BasicTy::Double)
        } else if c == 's' {
            Some(BasicTy::Str)
        } else if c == 'o' {
            Some(BasicTy::ObjectPath)
        } else if c == 'g' {
            Some(BasicTy::Signature)
        } else if c == '?' {
            Some(BasicTy::Wild)
        } else {
            None
        }
    }

    /// The signature of this type: one character.
    pub fn as_str(&self) -> (r: &'static str)
        ensures
            r@ == seq![self.letter()],
    {
        proof {
            reveal_strlit("b");
            reveal_strlit("y");
            reveal_strlit("n");
            reveal_strlit("q");
            reveal_strlit("i");
            reveal_strlit("u");
            reveal_strlit("x");
            reveal_strlit("t");
            reveal_strlit("h");
            reveal_strlit("d");
            reveal_strlit("s");
            reveal_strlit("o");
            reveal_strlit("g");
            reveal_strlit("?");
        }
        let r = match self {
            BasicTy::Boolean => "b",
            BasicTy::Byte => "y",
            BasicTy::Int16 => "n",
            BasicTy::Uint16 => "q",
            BasicTy::Int32 => "i",
            BasicTy::Uint32 => "u",
            BasicTy::Int64 => "x",
            BasicTy::Uint64 => "t",
            BasicTy::Handle => "h",
            BasicTy::Double => "d",
            BasicTy::Str => "s",
            BasicTy::ObjectPath => "o",
            BasicTy::Signature => "g",
            BasicTy::Wild => "?",
        };
        assert(r@ =~= seq![self.letter()]);
        r
    }
}

/// Reads one type of `text` from `pos` on: the type and where it ends.
fn parse_at(text: &str, len: usize, pos: usize) -> (r: Option<(VariantTy, usize)>)
    requires
        len == text@.len(),
        pos <= len,
    ensures
        match parse_ty(text@.skip(pos as int)) {
            Some((t, after)) => r matches Some((vt, end)) && vt@ == t && pos < end <= len && after
                == text@.skip(end as int),
            None => r is None,
        },
    decreases len - pos, 0nat,
{
    if pos >= len {
        return None;
    }
    let c = text.get_char(pos);
    let ghost s = text@.skip(pos as int);
    proof {
        assert(s[0] == c);
        assert(s.drop_first() =~= text@.skip(pos + 1));
    }
    match BasicTy::from_char(c) {
        Some(k) => Some((VariantTy::Basic(k), pos + 1)),
        None => {
            if c == 'v' {
                Some((VariantTy::Variant, pos + 1))
            } else if c == '*' {
                Some((VariantTy::Any, pos + 1))
            } else if c == 'r' {
                Some((VariantTy::AnyTuple, pos + 1))
            } else if c == 'm' {
                match parse_at(text, len, pos + 1) {
                    Some((e, end)) => Some((VariantTy::Maybe(Box::new(e)), end)),
                    None => None,
                }
            } else if c == 'a' {
                match parse_at(text, len, pos + 1) {
                    Some((e, end)) => Some((VariantTy::Array(Box::new(e)), end)),
                    None => None,
                }
            } else if c == '{' {
                if pos + 1 >= len {
                    return None;
                }
                let kc = text.get_char(pos + 1);
                proof {
                    assert(s.drop_first()[0] == kc);
                    assert(s.drop_first().drop_first() =~= text@.skip(pos + 2));
                }
                match BasicTy::from_char(kc) {
                    None => None,
                    Some(k) => match parse_at(text, len, pos + 2) {
                        None => None,
                        Some((v, end)) => {
                            if end < len && text.get_char(end) == '}' {
                                proof {
                                    let after = text@.skip(end as int);
                                    assert(after[0] == '}');
                                    assert(after.drop_first() =~= text@.skip(end + 1));
                                }
                                Some((VariantTy::DictEntry(k, Box::new(v)), end + 1))
                            } else {
                                proof {
                                    let after = text@.skip(end as int);
                                    if end < len {
                                        assert(after[0] == text@[end as int]);
                                    }
                                }
                                None
                            }
                        },
                    },
                }
            } else if c == '(' {
                match parse_items_at(text, len, pos + 1) {
                    Some((items, end)) => {
                        let r = VariantTy::Tuple(items);
                        assert(r@->Tuple_0 =~= models(items@));
                        Some((r, end))
                    },
                    None => None,
                }
            } else {
                None
            }
        },
    }
}

/// Reads the members of a tuple of `text` from `start` on, up to and with the
/// closing bracket.
fn parse_items_at(text: &str, len: usize, start: usize) -> (r: Option<(Vec<VariantTy>, usize)>)
    requires
        len == text@.len(),
        start <= len,
    ensures
        match parse_items(text@.skip(start as int)) {
            Some((items, after)) => r matches Some((v, end)) && models(v@) == items && start < end
                <= len && after == text@.skip(end as int),
            None => r is None,
        },
    decreases len - start, 1nat,
{
    let mut out: Vec<VariantTy> = Vec::new();
    let mut pos = start;
    assert(models(out@) =~= Seq::<Ty>::empty());
    loop
        invariant
            len == text@.len(),
            start <= pos <= len,
            parse_items(text@.skip(start as int)) == (match parse_items(text@.skip(pos as int)) {
                Some((items, after)) => Some((models(out@) + items, after)),
                None => None,
            }),
        decreases len - pos,
    {
        if pos >= len {
            return None;
        }
        let c = text.get_char(pos);
        let ghost s = text@.skip(pos as int);
        proof {
            assert(s[0] == c);
            assert(s.drop_first() =~= text@.skip(pos + 1));
        }
        if c == ')' {
            assert(models(out@) + Seq::<Ty>::empty() =~= models(out@));
            return Some((out, pos + 1));
        }
        match parse_at(text, len, pos) {
            None => {
                return None;
            },
            Some((t, end)) => {
                proof {
                    let before = models(out@);
                    let now = models(out@.push(t));
                    assert(now =~= before.push(t@));
                    if let Some((items, after)) = parse_items(text@.skip(end as int)) {
                        assert(before + (seq![t@] + items) =~= now + items);
                    }
                }
                out.push(t);
                pos = end;
            },
        }
    }
}

} // verus!
