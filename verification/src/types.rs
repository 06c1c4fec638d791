//! The types of SSA values.
use vstd::prelude::*;

verus! {

/// The type of a numeric value: a signed or unsigned integer of some bit
/// size, or an element of the native field.
#[derive(Clone, Copy, Debug, PartialEq, Eq, Hash, Structural)]
pub enum NumericType {
    Signed { bit_size: u32 },
    Unsigned { bit_size: u32 },
    NativeField,
}

impl NumericType {
    /// The type of array lengths and indices: 32-bit unsigned integers.
    pub fn length_type() -> (t: NumericType)
        ensures
            t == (NumericType::Unsigned { bit_size: 32 }),
    {
        NumericType::Unsigned { bit_size: 32 }
    }
}

/// The type of an SSA value. An array holds `len` repetitions of its element
/// types, laid out flat; a slice holds such repetitions too, with a length
/// known only at run time.
#[derive(Debug, PartialEq, Eq)]
pub enum Type {
    Numeric(NumericType),
    Reference(Box<Type>),
    Array(Vec<Type>, u32),
    Slice(Vec<Type>),
    Function,
}

/// The mathematical model of a [`Type`].
pub enum TypeView {
    Numeric(NumericType),
    Reference(Box<TypeView>),
    Array(Seq<TypeView>, u32),
    Slice(Seq<TypeView>),
    Function,
}

/// The models of a sequence of types.
pub open spec fn views_of(types: Seq<Type>) -> Seq<TypeView>
    decreases types,
{
    Seq::new(
        types.len(),
        |i: int|
            if 0 <= i < types.len() {
                type_view(&types[i])
            } else {
                TypeView::Function
            },
    )
}

/// The model of a type.
pub open spec fn type_view(t: &Type) -> TypeView
    decreases t,
{
    match t {
        Type::Numeric(n) => TypeView::Numeric(*n),
        Type::Reference(inner) => TypeView::Reference(Box::new(type_view(&**inner))),
        Type::Array(elements, len) => TypeView::Array(
            Seq::new(
                elements.len() as nat,
                |i: int|
                    if 0 <= i < elements.len() {
                        type_view(&elements[i])
                    } else {
                        TypeView::Function
                    },
            ),
            *len,
        ),
        Type::Slice(elements) => TypeView::Slice(
            Seq::new(
                elements.len() as nat,
                |i: int|
                    if 0 <= i < elements.len() {
                        type_view(&elements[i])
                    } else {
                        TypeView::Function
                    },
            ),
        ),
        Type::Function => TypeView::Function,
    }
}

impl View for Type {
    type V = TypeView;

    open spec fn view(&self) -> TypeView {
        type_view(self)
    }
}

impl TypeView {
    /// The element types of an array or slice type.
    pub open spec fn element_types(self) -> Seq<TypeView> {
        match self {
            TypeView::Array(elements, _) => elements,
            TypeView::Slice(elements) => elements,
            _ => Seq::empty(),
        }
    }

    /// Whether this is an array or a slice type.
    pub open spec fn is_composite(self) -> bool {
        self is Array || self is Slice
    }
}

impl Clone for Type {
    #[verifier::loop_isolation(false)]
    fn clone(&self) -> (r: Self)
        ensures
            r@ == self@,
        decreases self@,
    {
        match self {
            Type::Numeric(n) => Type::Numeric(*n),
            Type::Reference(inner) => {
                proof {
                    let tv = self@;
                    assert(decreases_to!(tv => tv->Reference_0));
                }
                let c: Type = (**inner).clone();
                Type::Reference(Box::new(c))
            },
            Type::Array(elements, len) => {
                let mut out: Vec<Type> = Vec::new();
                let mut i: usize = 0;
                while i < elements.len()
                    invariant
                        i <= elements.len(),
                        out.len() == i,
                        forall|k: int| 0 <= k < i ==> type_view(&out[k]) == type_view(&elements[k]),
                    decreases elements.len() - i,
                {
                    proof {
                        let tv = self@;
                        assert(tv->Array_0[i as int] == type_view(&elements[i as int]));
                        assert(decreases_to!(tv => tv->Array_0));
                    }
                    let c = elements[i].clone();
                    out.push(c);
                    i = i + 1;
                }
                let r = Type::Array(out, *len);
                assert(r@->Array_0 =~= self@->Array_0);
                r
            },
            Type::Slice(elements) => {
                let mut out: Vec<Type> = Vec::new();
                let mut i: usize = 0;
                while i < elements.len()
                    invariant
                        i <= elements.len(),
                        out.len() == i,
                        forall|k: int| 0 <= k < i ==> type_view(&out[k]) == type_view(&elements[k]),
                    decreases elements.len() - i,
                {
                    proof {
                        let tv = self@;
                        assert(tv->Slice_0[i as int] == type_view(&elements[i as int]));
                        assert(decreases_to!(tv => tv->Slice_0));
                    }
                    let c = elements[i].clone();
                    out.push(c);
                    i = i + 1;
                }
                let r = Type::Slice(out);
                assert(r@->Slice_0 =~= self@->Slice_0);
                r
            },
            Type::Function => Type::Function,
        }
    }
}

impl Type {
    /// The numeric type of a numeric type.
    pub fn unwrap_numeric(&self) -> (t: NumericType)
        requires
            self@ is Numeric,
        ensures
            self@ == TypeView::Numeric(t),
    {
        match self {
            Type::Numeric(t) => *t,
            _ => vstd::pervasive::unreached(),
        }
    }

    /// The element types of an array or slice type.
    pub fn element_types(&self) -> (elements: &Vec<Type>)
        requires
            self@.is_composite(),
        ensures
            elements@.len() == self@.element_types().len(),
            forall|i: int|
                0 <= i < elements@.len() ==> type_view(&elements[i]) == self@.element_types()[i],
    {
        match self {
            Type::Array(elements, _) => elements,
            Type::Slice(elements) => elements,
            _ => vstd::pervasive::unreached(),
        }
    }
}

} // verus!
