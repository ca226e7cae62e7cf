use vstd::prelude::*;

verus! {

/// The concrete type that an erased value holds.
#[derive(PartialEq, Eq, Structural, Clone, Copy, Debug)]
pub enum Kind {
    Unit,
    Bool,
    Int,
    Long,
    Text,
}

/// The mathematical content of an erased value.
pub enum ValueModel {
    Unit,
    Bool(bool),
    Int(i32),
    Long(i64),
    Text(Seq<char>),
}

impl ValueModel {
    pub open spec fn kind(self) -> Kind {
        match self {
            ValueModel::Unit => Kind::Unit,
            ValueModel::Bool(_) => Kind::Bool,
            ValueModel::Int(_) => Kind::Int,
            ValueModel::Long(_) => Kind::Long,
            ValueModel::Text(_) => Kind::Text,
        }
    }
}

/// A value whose concrete type is hidden from whoever holds it; it can only
/// be recovered through a checked conversion (see `Erasable::recover`).
#[derive(Debug, PartialEq, Eq)]
pub enum Value {
    Unit,
    Bool(bool),
    Int(i32),
    Long(i64),
    Text(String),
}

impl View for Value {
    type V = ValueModel;

    open spec fn view(&self) -> ValueModel {
        match self {
            Value::Unit => ValueModel::Unit,
            Value::Bool(b) => ValueModel::Bool(*b),
            Value::Int(i) => ValueModel::Int(*i),
            Value::Long(l) => ValueModel::Long(*l),
            Value::Text(s) => ValueModel::Text(s@),
        }
    }
}

impl Value {
    pub fn kind(&self) -> (k: Kind)
        ensures
            k == self@.kind(),
    {
        match self {
            Value::Unit => Kind::Unit,
            Value::Bool(_) => Kind::Bool,
            Value::Int(_) => Kind::Int,
            Value::Long(_) => Kind::Long,
            Value::Text(_) => Kind::Text,
        }
    }

    /// Structural equality of two erased values.
    pub fn same(&self, other: &Value) -> (r: bool)
        ensures
            r == (self@ == other@),
    {
        match self {
            Value::Unit => other.kind() == Kind::Unit,
            Value::Bool(a) => match other {
                Value::Bool(b) => *a == *b,
                _ => false,
            },
            Value::Int(a) => match other {
                Value::Int(b) => *a == *b,
                _ => false,
            },
            Value::Long(a) => match other {
                Value::Long(b) => *a == *b,
                _ => false,
            },
            Value::Text(a) => match other {
                Value::Text(b) => *a == *b,
                _ => false,
            },
        }
    }

    pub fn duplicate(&self) -> (r: Value)
        ensures
            r@ == self@,
    {
        match self {
            Value::Unit => Value::Unit,
            Value::Bool(b) => Value::Bool(*b),
            Value::Int(i) => Value::Int(*i),
            Value::Long(l) => Value::Long(*l),
            Value::Text(s) => Value::Text(s.clone()),
        }
    }
}

/// A concrete type that can be stored in a `Value` and recovered from one.
/// Recovery as `T` succeeds exactly when the stored value has `T`'s kind.
pub trait Erasable: Sized {
    /// The kind of value that this type is stored as.
    spec fn kind_of() -> Kind;

    /// The erased form of a value of this type.
    spec fn erased(&self) -> ValueModel;

    fn erase(self) -> (v: Value)
        ensures
            v@ == self.erased(),
            v@.kind() == Self::kind_of(),
    ;

    fn recover(v: Value) -> (r: Option<Self>)
        ensures
            r.is_some() <==> v@.kind() == Self::kind_of(),
            r matches Some(x) ==> x.erased() == v@,
    ;
}

impl Erasable for () {
    open spec fn kind_of() -> Kind {
        Kind::Unit
    }

    open spec fn erased(&self) -> ValueModel {
        ValueModel::Unit
    }

    fn erase(self) -> (v: Value) {
        Value::Unit
    }

    fn recover(v: Value) -> (r: Option<()>) {
        match v {
            Value::Unit => Some(()),
            _ => None,
        }
    }
}

impl Erasable for bool {
    open spec fn kind_of() -> Kind {
        Kind::Bool
    }

    open spec fn erased(&self) -> ValueModel {
        ValueModel::Bool(*self)
    }

    fn erase(self) -> (v: Value) {
        Value::Bool(self)
    }

    fn recover(v: Value) -> (r: Option<bool>) {
        match v {
            Value::Bool(b) => Some(b),
            _ => None,
        }
    }
}

impl Erasable for i32 {
    open spec fn kind_of() -> Kind {
        Kind::Int
    }

    open spec fn erased(&self) -> ValueModel {
        ValueModel::Int(*self)
    }

    fn erase(self) -> (v: Value) {
        Value::Int(self)
    }

    fn recover(v: Value) -> (r: Option<i32>) {
        match v {
            Value::Int(i) => Some(i),
            _ => None,
        }
    }
}

impl Erasable for i64 {
    open spec fn kind_of() -> Kind {
        Kind::Long
    }

    open spec fn erased(&self) -> ValueModel {
        ValueModel::Long(*self)
    }

    fn erase(self) -> (v: Value) {
        Value::Long(self)
    }

    fn recover(v: Value) -> (r: Option<i64>) {
        match v {
            Value::Long(l) => Some(l),
            _ => None,
        }
    }
}

impl Erasable for String {
    open spec fn kind_of() -> Kind {
        Kind::Text
    }

    open spec fn erased(&self) -> ValueModel {
        ValueModel::Text(self@)
    }

    fn erase(self) -> (v: Value) {
        Value::Text(self)
    }

    fn recover(v: Value) -> (r: Option<String>) {
        match v {
            Value::Text(s) => Some(s),
            _ => None,
        }
    }
}

} // verus!
