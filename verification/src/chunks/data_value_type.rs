//! Data value types
//!
//! Possible data type values in Dalvik and a helper method to parse a data type from an `u8`.

use vstd::prelude::*;
use crate::numfmt::{hex_text, hex_string};

verus! {

/// Data value types
///
/// Note: we ignore `TypeFirstInt`, `TypeFirstColorInt`, and `TypeLastColorInt` which hold the same values
/// as actual data types (respectively `TypeIntDec`, `TypeIntColorArgb8`, and `TypeIntColorRgb4`).
#[derive(Debug, Clone, Copy, PartialEq, Eq, Structural)]
pub enum DataValueType {
    /// The 'data' is either 0 or 1, specifying this resource is either undefined or empty,
    /// respectively (0x00)
    TypeNull,
    /// The 'data' holds a ResTable_ref, a reference to another resource table entry (0x01)
    TypeReference,
    /// The 'data' holds an attribute resource identifier (0x02)
    TypeAttribute,
    /// The 'data' holds an index into the containing resource table's global value string pool (0x03)
    TypeString,
    /// The 'data' holds a single-precision floating point number (0x04)
    TypeFloat,
    /// The 'data' holds a complex number encoding a dimension value, such as "100in" (0x05)
    TypeDimension,
    /// The 'data' holds a complex number encoding a fraction of a container (0x06)
    TypeFraction,
    /// The 'data' holds a dynamic ResTable_ref, which needs to be resolved before it can be used
    /// like a TYPE_REFERENCE (0x07)
    TypeDynamicReference,
    /// The 'data' holds an attribute resource identifier, which needs to be resolved before it can
    /// be used like a TYPE_ATTRIBUTE (0x08)
    TypeDynamicAttribute,
    /// The data is a raw integer value of the form `n..n` (0x10)
    TypeIntDec,
    /// The data is a raw integer value of the form `0xn..n` (0x11)
    TypeIntHex,
    /// The data is either 0 or 1, for input `false` or `true` respectively (0x12)
    TypeIntBoolean,
    /// The 'data' is a raw integer value of the form `#aarrggbb` (0x1c)
    TypeIntColorArgb8,
    /// The 'data' is a raw integer value of the form `#rrggbb` (0x1d)
    TypeIntColorRgb8,
    /// The 'data' is a raw integer value of the form `#argb` (0x1e)
    TypeIntColorArgb4,
    /// The 'data' is a raw integer value of the form `#rgb` (0x1f)
    TypeIntColorRgb4,
}

/// The data value type that a byte identifies, if any
pub open spec fn spec_data_value_type(value: u8) -> Option<DataValueType> {
    if value == 0x00 {
        Some(DataValueType::TypeNull)
    } else if value == 0x01 {
        Some(DataValueType::TypeReference)
    } else if value == 0x02 {
        Some(DataValueType::TypeAttribute)
    } else if value == 0x03 {
        Some(DataValueType::TypeString)
    } else if value == 0x04 {
        Some(DataValueType::TypeFloat)
    } else if value == 0x05 {
        Some(DataValueType::TypeDimension)
    } else if value == 0x06 {
        Some(DataValueType::TypeFraction)
    } else if value == 0x07 {
        Some(DataValueType::TypeDynamicReference)
    } else if value == 0x08 {
        Some(DataValueType::TypeDynamicAttribute)
    } else if value == 0x10 {
        Some(DataValueType::TypeIntDec)
    } else if value == 0x11 {
        Some(DataValueType::TypeIntHex)
    } else if value == 0x12 {
        Some(DataValueType::TypeIntBoolean)
    } else if value == 0x1c {
        Some(DataValueType::TypeIntColorArgb8)
    } else if value == 0x1d {
        Some(DataValueType::TypeIntColorRgb8)
    } else if value == 0x1e {
        Some(DataValueType::TypeIntColorArgb4)
    } else if value == 0x1f {
        Some(DataValueType::TypeIntColorRgb4)
    } else {
        None
    }
}

/// The byte that identifies a data value type
pub open spec fn spec_data_value_type_val(t: DataValueType) -> u8 {
    match t {
        DataValueType::TypeNull => 0x00,
        DataValueType::TypeReference => 0x01,
        DataValueType::TypeAttribute => 0x02,
        DataValueType::TypeString => 0x03,
        DataValueType::TypeFloat => 0x04,
        DataValueType::TypeDimension => 0x05,
        DataValueType::TypeFraction => 0x06,
        DataValueType::TypeDynamicReference => 0x07,
        DataValueType::TypeDynamicAttribute => 0x08,
        DataValueType::TypeIntDec => 0x10,
        DataValueType::TypeIntHex => 0x11,
        DataValueType::TypeIntBoolean => 0x12,
        DataValueType::TypeIntColorArgb8 => 0x1c,
        DataValueType::TypeIntColorRgb8 => 0x1d,
        DataValueType::TypeIntColorArgb4 => 0x1e,
        DataValueType::TypeIntColorRgb4 => 0x1f,
    }
}

impl DataValueType {
    /// The data value type that `value` identifies, if any
    pub fn try_from_val(value: u8) -> (r: Option<Self>)
        ensures
            r == spec_data_value_type(value),
    {
        match value {
            0x00 => Some(DataValueType::TypeNull),
            0x01 => Some(DataValueType::TypeReference),
            0x02 => Some(DataValueType::TypeAttribute),
            0x03 => Some(DataValueType::TypeString),
            0x04 => Some(DataValueType::TypeFloat),
            0x05 => Some(DataValueType::TypeDimension),
            0x06 => Some(DataValueType::TypeFraction),
            0x07 => Some(DataValueType::TypeDynamicReference),
            0x08 => Some(DataValueType::TypeDynamicAttribute),
            0x10 => Some(DataValueType::TypeIntDec),
            0x11 => Some(DataValueType::TypeIntHex),
            0x12 => Some(DataValueType::TypeIntBoolean),
            0x1c => Some(DataValueType::TypeIntColorArgb8),
            0x1d => Some(DataValueType::TypeIntColorRgb8),
            0x1e => Some(DataValueType::TypeIntColorArgb4),
            0x1f => Some(DataValueType::TypeIntColorRgb4),
            _ => None,
        }
    }

    /// Convert a `u8` into a `DataValueType`; the byte must identify one
    pub fn from_val(value: u8) -> (r: Self)
        requires
            spec_data_value_type(value) is Some,
        ensures
            spec_data_value_type(value) == Some(r),
    {
        match Self::try_from_val(value) {
            Some(t) => t,
            None => {
                proof {
                    assert(false);
                }
                DataValueType::TypeNull
            },
        }
    }

    /// The byte that identifies this data value type
    pub fn to_val(&self) -> (v: u8)
        ensures
            v == spec_data_value_type_val(*self),
    {
        match self {
            DataValueType::TypeNull => 0x00,
            DataValueType::TypeReference => 0x01,
            DataValueType::TypeAttribute => 0x02,
            DataValueType::TypeString => 0x03,
            DataValueType::TypeFloat => 0x04,
            DataValueType::TypeDimension => 0x05,
            DataValueType::TypeFraction => 0x06,
            DataValueType::TypeDynamicReference => 0x07,
            DataValueType::TypeDynamicAttribute => 0x08,
            DataValueType::TypeIntDec => 0x10,
            DataValueType::TypeIntHex => 0x11,
            DataValueType::TypeIntBoolean => 0x12,
            DataValueType::TypeIntColorArgb8 => 0x1c,
            DataValueType::TypeIntColorRgb8 => 0x1d,
            DataValueType::TypeIntColorArgb4 => 0x1e,
            DataValueType::TypeIntColorRgb4 => 0x1f,
        }
    }

    /// The identifying byte in lowercase hexadecimal digits, without leading
    /// zeros (as `{:x}` formats it)
    pub fn to_lower_hex(&self) -> (r: String)
        ensures
            r@ == hex_text(spec_data_value_type_val(*self) as nat),
    {
        hex_string(self.to_val() as u32)
    }
}

/// A byte that identifies a data value type is the byte of that type, and
/// the byte of every type identifies it.
pub proof fn lemma_data_value_type_roundtrip(value: u8, t: DataValueType)
    ensures
        spec_data_value_type(value) == Some(t) ==> spec_data_value_type_val(t) == value,
        spec_data_value_type(spec_data_value_type_val(t)) == Some(t),
{
}

/// Where the unit type information is for complex values.
/// This gives us 16 possible types, as defined below.
pub const COMPLEX_UNIT_SHIF: u8 = 0;
pub const COMPLEX_UNIT_MASK: u8 = 0xf;

/// Structure of complex unit data values
#[derive(Debug, Clone, Copy, PartialEq, Eq, Structural)]
pub enum ComplexValueUnitType {
    /// TYPE_DIMENSION: Value is raw pixels (0).
    ComplexUnitPx,
    /// TYPE_DIMENSION: Value is Device Independent Pixels (1).
    ComplexUnitDip,
    /// TYPE_DIMENSION: Value is a Scaled device independent Pixels (2).
    ComplexUnitSp,
    /// TYPE_DIMENSION: Value is in points (3).
    ComplexUnitPt,
    /// TYPE_DIMENSION: Value is in inches (4).
    ComplexUnitIn,
    /// TYPE_DIMENSION: Value is in millimeters (5).
    ComplexUnitMm,
}

/// TYPE_FRACTION: A basic fraction of the overall size.
pub const COMPLEX_UNIT_FRACTION: u8 = 0;
/// TYPE_FRACTION: A fraction of the parent size.
pub const COMPLEX_UNIT_FRACTION_PARENT: u8 = 1;

/// Where the radix information is, telling where the decimal place
/// appears in the mantissa.  This give us 4 possible fixed point
/// representations as defined below.
pub const COMPLEX_RADIX_SHIFT: u8 = 4;
pub const COMPLEX_RADIX_MASK: u8 = 0x3;

/// Where the actual value is.  This gives us 23 bits of
/// precision.  The top bit is the sign.
pub const COMPLEX_MANTISSA_SHIFT: u8 = 8;
pub const COMPLEX_MANTISSA_MASK: u32 = 0xffffff;

/// Structure of fraction complex data values
#[derive(Debug, Clone, Copy, PartialEq, Eq, Structural)]
pub enum ComplexValueFractionType {
    /// The mantissa is an integral number -- i.e., 0xnnnnnn.0 (0)
    ComplexRadix23p0,
    /// The mantissa magnitude is 16 bits -- i.e, 0xnnnn.nn (1)
    ComplexRadix16p7,
    /// The mantissa magnitude is 8 bits -- i.e, 0xnn.nnnn (2)
    ComplexRadix8p15,
    /// The mantissa magnitude is 0 bits -- i.e, 0x0.nnnnnn (3)
    ComplexRadix0p23,
}

/// Possible values for `TYPE_NULL`
#[derive(Debug, Clone, Copy, PartialEq, Eq, Structural)]
pub enum DataNull {
    /// The value is not defined (0).
    DataNullUndefined,
    /// The value is explicitly defined as empty (1).
    DataNullEmpty,
}

} // verus!
