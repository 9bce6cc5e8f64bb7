use vstd::prelude::*;

verus! {

/// Inferred data type of a field.
#[derive(Debug, Clone, Copy, PartialEq, Eq, Structural, Hash)]
pub enum Type {
    Unsigned,
    Signed,
    Float,
    Boolean,
    Date,
    DateTime,
    NULL,
    Text,
}

impl Default for Type {
    fn default() -> (r: Type)
        ensures
            r == Type::Text,
    {
        Type::Text
    }
}

impl Type {
    /// Priority of a type: NULL is the least general, Text the most.
    pub open spec fn spec_priority(self) -> u8 {
        match self {
            Type::NULL => 0,
            Type::Boolean => 1,
            Type::Unsigned => 2,
            Type::Signed => 3,
            Type::Float => 4,
            Type::Date => 5,
            Type::DateTime => 6,
            Type::Text => 7,
        }
    }

    /// The type that holds values of both `self` and `other`.
    pub open spec fn spec_merge(self, other: Type) -> Type {
        if self == other {
            self
        } else if self == Type::NULL {
            other
        } else if other == Type::NULL {
            self
        } else {
            match (self, other) {
                (Type::Unsigned, Type::Signed) | (Type::Signed, Type::Unsigned) => Type::Signed,
                (Type::Unsigned, Type::Float) | (Type::Float, Type::Unsigned) | (
                    Type::Signed,
                    Type::Float,
                ) | (Type::Float, Type::Signed) => Type::Float,
                (Type::Date, Type::DateTime) | (Type::DateTime, Type::Date) => Type::DateTime,
                _ => Type::Text,
            }
        }
    }

    /// Index of the type in a per-type tally.
    pub fn as_index(&self) -> (r: usize)
        ensures
            r == self.spec_priority() as usize,
            r < 8,
    {
        self.priority() as usize
    }

    pub fn is_numeric(&self) -> (r: bool)
        ensures
            r == (*self == Type::Unsigned || *self == Type::Signed || *self == Type::Float),
    {
        matches!(self, Type::Unsigned | Type::Signed | Type::Float)
    }

    pub fn is_temporal(&self) -> (r: bool)
        ensures
            r == (*self == Type::Date || *self == Type::DateTime),
    {
        matches!(self, Type::Date | Type::DateTime)
    }

    pub fn priority(&self) -> (r: u8)
        ensures
            r == self.spec_priority(),
    {
        match self {
            Type::NULL => 0,
            Type::Boolean => 1,
            Type::Unsigned => 2,
            Type::Signed => 3,
            Type::Float => 4,
            Type::Date => 5,
            Type::DateTime => 6,
            Type::Text => 7,
        }
    }

    pub fn merge(self, other: Type) -> (r: Type)
        ensures
            r == self.spec_merge(other),
    {
        if self == other {
            return self;
        }
        if self == Type::NULL {
            return other;
        }
        if other == Type::NULL {
            return self;
        }
        match (self, other) {
            (Type::Unsigned, Type::Signed) | (Type::Signed, Type::Unsigned) => Type::Signed,
            (Type::Unsigned, Type::Float) | (Type::Float, Type::Unsigned) | (
                Type::Signed,
                Type::Float,
            ) | (Type::Float, Type::Signed) => Type::Float,
            (Type::Date, Type::DateTime) | (Type::DateTime, Type::Date) => Type::DateTime,
            _ => Type::Text,
        }
    }

    /// Name of the type.
    pub fn name(&self) -> (r: &'static str)
        ensures
            r@ == self.spec_name(),
    {
        match self {
            Type::Unsigned => "Unsigned",
            Type::Signed => "Signed",
            Type::Float => "Float",
            Type::Boolean => "Boolean",
            Type::Date => "Date",
            Type::DateTime => "DateTime",
            Type::NULL => "NULL",
            Type::Text => "Text",
        }
    }

    pub open spec fn spec_name(self) -> Seq<char> {
        match self {
            Type::Unsigned => "Unsigned"@,
            Type::Signed => "Signed"@,
            Type::Float => "Float"@,
            Type::Boolean => "Boolean"@,
            Type::Date => "Date"@,
            Type::DateTime => "DateTime"@,
            Type::NULL => "NULL"@,
            Type::Text => "Text"@,
        }
    }
}

/// Merging with NULL yields the other type, on either side.
pub proof fn lemma_merge_null_identity(t: Type)
    ensures
        Type::NULL.spec_merge(t) == t,
        t.spec_merge(Type::NULL) == t,
{
}

/// Merge laws: integers widen to Signed, numbers to Float, dates to DateTime,
/// and any other mix of distinct non-NULL types becomes Text.
pub proof fn lemma_merge_laws()
    ensures
        Type::Unsigned.spec_merge(Type::Signed) == Type::Signed,
        Type::Signed.spec_merge(Type::Float) == Type::Float,
        Type::Unsigned.spec_merge(Type::Float) == Type::Float,
        Type::Date.spec_merge(Type::DateTime) == Type::DateTime,
        Type::Boolean.spec_merge(Type::Text) == Type::Text,
{
}

/// Merge does not depend on the order of its operands.
pub proof fn lemma_merge_commutative(a: Type, b: Type)
    ensures
        a.spec_merge(b) == b.spec_merge(a),
{
}

/// Merge is associative, so a column's type does not depend on how cells are grouped.
pub proof fn lemma_merge_associative(a: Type, b: Type, c: Type)
    ensures
        a.spec_merge(b).spec_merge(c) == a.spec_merge(b.spec_merge(c)),
{
}

} // verus!
