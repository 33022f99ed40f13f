//! The type model of the accepted C subset.
//!
//! A `Type` is a tagged record over the kinds `{None, Int, Ptr, Arr}`.
//! `Int` has size 4; `Ptr` has size 8 and owns the type it points to;
//! `Arr` has size `base.size * length` and owns its element type. `None`
//! is the sentinel returned when no type is present at a given position.
//! Types are immutable once built; equality is structural.

use vstd::prelude::*;

verus! {

/// The kind tag of a `Type`.
#[derive(PartialEq, Eq, Structural, Clone, Copy, Debug)]
pub enum TypeKind {
    TyNone,
    TyInt,
    TyPtr,
    TyArr,
}

/// A type of the accepted C subset: a kind, an owned base type for
/// pointers and arrays, the size in bytes, and the element count for
/// arrays.
pub struct Type {
    pub kind: TypeKind,
    pub ptr_to: Option<Box<Type>>,
    pub size: usize,
    pub size_array: usize,
}

impl Clone for Type {
    fn clone(&self) -> (res: Self)
        ensures
            res == *self,
        decreases *self,
    {
        Type {
            kind: self.kind,
            ptr_to: match &self.ptr_to {
                Some(b) => Some(Box::new((**b).clone())),
                None => None,
            },
            size: self.size,
            size_array: self.size_array,
        }
    }
}

impl Type {
    /// Size is consistent with the kind, the base type is present exactly
    /// for pointers and arrays, and the element count is zero except for
    /// arrays.
    pub open spec fn wf(self) -> bool
        decreases self,
    {
        match self.kind {
            TypeKind::TyNone => self.ptr_to is None && self.size == 0 && self.size_array == 0,
            TypeKind::TyInt => self.ptr_to is None && self.size == 4 && self.size_array == 0,
            TypeKind::TyPtr => {
                &&& self.ptr_to matches Some(b) && b.wf()
                &&& self.size == 8
                &&& self.size_array == 0
            },
            TypeKind::TyArr => {
                &&& self.ptr_to matches Some(b) && b.wf() && self.size == b.size * self.size_array
            },
        }
    }

    /// The sentinel for "no type here".
    pub open spec fn spec_none() -> Type {
        Type { kind: TypeKind::TyNone, ptr_to: None, size: 0, size_array: 0 }
    }

    /// The integer type, of size 4.
    pub open spec fn spec_int() -> Type {
        Type { kind: TypeKind::TyInt, ptr_to: None, size: 4, size_array: 0 }
    }

    fn new_type(kind: TypeKind, size: usize) -> (t: Type)
        ensures
            t == (Type { kind, ptr_to: None, size, size_array: 0 }),
    {
        Type { kind, ptr_to: None, size, size_array: 0 }
    }

    /// The `None` sentinel type.
    pub fn new_none() -> (t: Type)
        ensures
            t == Type::spec_none(),
            t.wf(),
    {
        Type::new_type(TypeKind::TyNone, 0)
    }

    /// The integer type: kind `Int`, size 4.
    pub fn new_int() -> (t: Type)
        ensures
            t == Type::spec_int(),
            t.wf(),
    {
        Type::new_type(TypeKind::TyInt, 4)
    }

    /// The pointer type with `self` as its base: kind `Ptr`, size 8.
    pub fn pointer_to(self) -> (t: Type)
        ensures
            t.kind == TypeKind::TyPtr,
            t.ptr_to == Some(Box::new(self)),
            t.size == 8,
            t.size_array == 0,
            self.wf() ==> t.wf(),
    {
        Type { kind: TypeKind::TyPtr, ptr_to: Some(Box::new(self)), size: 8, size_array: 0 }
    }

    /// The array type of `n` elements of `self`: kind `Arr`, size
    /// `self.size * n`.
    pub fn array_of(self, n: usize) -> (t: Type)
        requires
            self.size * n <= usize::MAX,
        ensures
            t.kind == TypeKind::TyArr,
            t.ptr_to == Some(Box::new(self)),
            t.size == self.size * n,
            t.size_array == n,
            self.wf() ==> t.wf(),
    {
        let size = self.size * n;
        Type { kind: TypeKind::TyArr, ptr_to: Some(Box::new(self)), size, size_array: n }
    }

    /// True exactly for the integer type.
    pub fn is_integer(&self) -> (r: bool)
        ensures
            r == (self.kind == TypeKind::TyInt),
    {
        self.kind == TypeKind::TyInt
    }
}

} // verus!
