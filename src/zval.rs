//! The host's tagged value and the conversions between it and native types.
use vstd::prelude::*;

use crate::error::{Error, Result};

verus! {

/// The dynamic type tag of a [`Zval`].
#[derive(Debug, Clone, Copy, PartialEq, Eq, Structural)]
pub enum DataType {
    Null,
    Bool,
    Long,
    String,
}

/// Mathematical model of a [`Zval`].
pub enum ZvalView {
    Null,
    Bool(bool),
    Long(i64),
    Str(Seq<char>),
}

impl ZvalView {
    /// The dynamic type tag of the value.
    pub open spec fn data_type(self) -> DataType {
        match self {
            ZvalView::Null => DataType::Null,
            ZvalView::Bool(_) => DataType::Bool,
            ZvalView::Long(_) => DataType::Long,
            ZvalView::Str(_) => DataType::String,
        }
    }
}

/// A tagged value as the host stores it: null, a boolean, a machine-word
/// signed integer or a string.
#[derive(Debug)]
pub enum Zval {
    Null,
    Bool(bool),
    Long(i64),
    Str(String),
}

impl View for Zval {
    type V = ZvalView;

    open spec fn view(&self) -> ZvalView {
        match self {
            Zval::Null => ZvalView::Null,
            Zval::Bool(b) => ZvalView::Bool(*b),
            Zval::Long(l) => ZvalView::Long(*l),
            Zval::Str(s) => ZvalView::Str(s@),
        }
    }
}

impl Clone for Zval {
    fn clone(&self) -> (r: Self)
        ensures
            r@ == self@,
    {
        match self {
            Zval::Null => Zval::Null,
            Zval::Bool(b) => Zval::Bool(*b),
            Zval::Long(l) => Zval::Long(*l),
            Zval::Str(s) => Zval::Str(s.clone()),
        }
    }
}

impl Zval {
    /// Creates a null value.
    pub fn new() -> (r: Zval)
        ensures
            r@ == ZvalView::Null,
    {
        Zval::Null
    }

    /// Returns the dynamic type tag of the value.
    pub fn get_type(&self) -> (r: DataType)
        ensures
            r == self@.data_type(),
    {
        match self {
            Zval::Null => DataType::Null,
            Zval::Bool(_) => DataType::Bool,
            Zval::Long(_) => DataType::Long,
            Zval::Str(_) => DataType::String,
        }
    }

    /// Whether the value is null.
    pub fn is_null(&self) -> (r: bool)
        ensures
            r == (self@ is Null),
    {
        matches!(self, Zval::Null)
    }

    /// Whether the value is an integer.
    pub fn is_long(&self) -> (r: bool)
        ensures
            r == (self@ is Long),
    {
        matches!(self, Zval::Long(_))
    }

    /// Whether the value is a string.
    pub fn is_string(&self) -> (r: bool)
        ensures
            r == (self@ is Str),
    {
        matches!(self, Zval::Str(_))
    }

    /// The integer held by the value, if it is one.
    pub fn long(&self) -> (r: Option<i64>)
        ensures
            r == (match self@ {
                ZvalView::Long(l) => Some(l),
                _ => None::<i64>,
            }),
    {
        match self {
            Zval::Long(l) => Some(*l),
            _ => None,
        }
    }

    /// The boolean held by the value, if it is one.
    pub fn bool(&self) -> (r: Option<bool>)
        ensures
            r == (match self@ {
                ZvalView::Bool(b) => Some(b),
                _ => None::<bool>,
            }),
    {
        match self {
            Zval::Bool(b) => Some(*b),
            _ => None,
        }
    }

    /// A borrow of the string held by the value, if it is one.
    pub fn str(&self) -> (r: Option<&str>)
        ensures
            r is Some <==> self@ is Str,
            r is Some ==> self@ == ZvalView::Str(r->Some_0@),
    {
        match self {
            Zval::Str(s) => Some(s.as_str()),
            _ => None,
        }
    }

    /// A copy of the string held by the value, if it is one.
    pub fn string(&self) -> (r: Option<String>)
        ensures
            r is Some <==> self@ is Str,
            r is Some ==> self@ == ZvalView::Str(r->Some_0@),
    {
        match self {
            Zval::Str(s) => Some(s.clone()),
            _ => None,
        }
    }

    /// Replaces the value with an integer.
    pub fn set_long(&mut self, val: i64)
        ensures
            final(self)@ == ZvalView::Long(val),
    {
        *self = Zval::Long(val);
    }

    /// Replaces the value with a boolean.
    pub fn set_bool(&mut self, val: bool)
        ensures
            final(self)@ == ZvalView::Bool(val),
    {
        *self = Zval::Bool(val);
    }

    /// Replaces the value with a string.
    pub fn set_string(&mut self, val: String)
        ensures
            final(self)@ == ZvalView::Str(val@),
    {
        *self = Zval::Str(val);
    }

    /// Replaces the value with null.
    pub fn set_null(&mut self)
        ensures
            final(self)@ == ZvalView::Null,
    {
        *self = Zval::Null;
    }
}

/// Conversion of a native value into a [`Zval`].
pub trait IntoZval: View + Sized {
    /// What converting a value with the given view yields.
    spec fn zval_of(v: Self::V) -> Result<ZvalView>;

    /// Converts the value.
    fn into_zval(self) -> (r: Result<Zval>)
        ensures
            r is Ok ==> Self::zval_of(self@) == Ok::<ZvalView, Error>(r->Ok_0@),
            r is Err ==> Self::zval_of(self@) == Err::<ZvalView, Error>(r->Err_0),
    ;
}

/// Conversion of a [`Zval`] into a native value.
pub trait FromZval: View + Sized {
    /// The view of the native value that a [`Zval`] converts to, if any.
    spec fn value_of(z: ZvalView) -> Option<Self::V>;

    /// Converts the value, or returns `None` where its type does not fit.
    fn from_zval(zval: &Zval) -> (r: Option<Self>)
        ensures
            r is Some <==> Self::value_of(zval@) is Some,
            r is Some ==> Self::value_of(zval@) == Some(r->Some_0@),
    ;
}

impl IntoZval for Zval {
    open spec fn zval_of(v: ZvalView) -> Result<ZvalView> {
        Ok(v)
    }

    fn into_zval(self) -> (r: Result<Zval>) {
        Ok(self)
    }
}

impl IntoZval for i64 {
    open spec fn zval_of(v: i64) -> Result<ZvalView> {
        Ok(ZvalView::Long(v))
    }

    fn into_zval(self) -> (r: Result<Zval>) {
        Ok(Zval::Long(self))
    }
}

impl IntoZval for i32 {
    open spec fn zval_of(v: i32) -> Result<ZvalView> {
        Ok(ZvalView::Long(v as i64))
    }

    fn into_zval(self) -> (r: Result<Zval>) {
        Ok(Zval::Long(self as i64))
    }
}

impl IntoZval for u64 {
    open spec fn zval_of(v: u64) -> Result<ZvalView> {
        if v <= i64::MAX {
            Ok(ZvalView::Long(v as i64))
        } else {
            Err(Error::IntegerOverflow)
        }
    }

    fn into_zval(self) -> (r: Result<Zval>) {
        if self <= i64::MAX as u64 {
            Ok(Zval::Long(self as i64))
        } else {
            Err(Error::IntegerOverflow)
        }
    }
}

impl IntoZval for bool {
    open spec fn zval_of(v: bool) -> Result<ZvalView> {
        Ok(ZvalView::Bool(v))
    }

    fn into_zval(self) -> (r: Result<Zval>) {
        Ok(Zval::Bool(self))
    }
}

impl IntoZval for String {
    open spec fn zval_of(v: Seq<char>) -> Result<ZvalView> {
        Ok(ZvalView::Str(v))
    }

    fn into_zval(self) -> (r: Result<Zval>) {
        Ok(Zval::Str(self))
    }
}

impl<'a> IntoZval for &'a str {
    open spec fn zval_of(v: Seq<char>) -> Result<ZvalView> {
        Ok(ZvalView::Str(v))
    }

    fn into_zval(self) -> (r: Result<Zval>) {
        Ok(Zval::Str(self.to_owned()))
    }
}

impl FromZval for Zval {
    open spec fn value_of(z: ZvalView) -> Option<ZvalView> {
        Some(z)
    }

    fn from_zval(zval: &Zval) -> (r: Option<Zval>) {
        Some(zval.clone())
    }
}

impl FromZval for i64 {
    open spec fn value_of(z: ZvalView) -> Option<i64> {
        match z {
            ZvalView::Long(l) => Some(l),
            _ => None,
        }
    }

    fn from_zval(zval: &Zval) -> (r: Option<i64>) {
        zval.long()
    }
}

impl FromZval for bool {
    open spec fn value_of(z: ZvalView) -> Option<bool> {
        match z {
            ZvalView::Bool(b) => Some(b),
            _ => None,
        }
    }

    fn from_zval(zval: &Zval) -> (r: Option<bool>) {
        zval.bool()
    }
}

impl FromZval for String {
    open spec fn value_of(z: ZvalView) -> Option<Seq<char>> {
        match z {
            ZvalView::Str(s) => Some(s),
            _ => None,
        }
    }

    fn from_zval(zval: &Zval) -> (r: Option<String>) {
        zval.string()
    }
}

} // verus!
