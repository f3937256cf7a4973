//! A verified value bridge between native code and a dynamically typed host
//! runtime: tagged values, the host's insertion-ordered associative array,
//! class carriers and the bailout bridge.
use vstd::prelude::*;

pub mod array;
pub mod boxed;
pub mod class_object;
pub mod convert;
pub mod error;
pub mod laws;
pub mod numeric;
pub mod try_catch;
pub mod zval;

pub use crate::array::{ArrayKey, IntoArrayKey, Iter, Values, ZendHashTable};
pub use crate::boxed::ZBox;
pub use crate::class_object::{ClassEntry, ObjectStore, ZendClassObject, ZendObject};
pub use crate::error::{Error, Result};
pub use crate::try_catch::{settle, CatchError, FrameOutcome, Settlement};
pub use crate::zval::{DataType, FromZval, IntoZval, Zval};
