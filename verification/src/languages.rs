//! Named codes for commonly used languages.
//!
//! Each function returns the raw packed code of one fixed tag,
//! written here as a literal; no alias substitution is applied, so
//! `norwegian()` keeps the bare `no` code even though parsing the
//! text `no` yields `nb`.

use vstd::prelude::*;
use crate::code::LanguageCode;

verus! {

/// The code of `und`.
pub fn unknown() -> (r: LanguageCode)
    ensures
        r@ == 0x0000000000000000u64,
{
    LanguageCode::new(0x0000000000000000u64)
}

/// The code of `en`.
pub fn english() -> (r: LanguageCode)
    ensures
        r@ == 0x19a8000000000000u64,
{
    LanguageCode::new(0x19a8000000000000u64)
}

/// The code of `en-US`.
pub fn american_english() -> (r: LanguageCode)
    ensures
        r@ == 0x19a800000000069bu64,
{
    LanguageCode::new(0x19a800000000069bu64)
}

/// The code of `en-GB`.
pub fn british_english() -> (r: LanguageCode)
    ensures
        r@ == 0x19a80000000004cau64,
{
    LanguageCode::new(0x19a80000000004cau64)
}

/// The code of `en-001`.
pub fn international_english() -> (r: LanguageCode)
    ensures
        r@ == 0x19a8000000000001u64,
{
    LanguageCode::new(0x19a8000000000001u64)
}

/// The code of `pt`.
pub fn portuguese() -> (r: LanguageCode)
    ensures
        r@ == 0x4668000000000000u64,
{
    LanguageCode::new(0x4668000000000000u64)
}

/// The code of `pt-BR`.
pub fn brazilian_portuguese() -> (r: LanguageCode)
    ensures
        r@ == 0x466800000000043au64,
{
    LanguageCode::new(0x466800000000043au64)
}

/// The code of `pt-US`.
pub fn american_portuguese() -> (r: LanguageCode)
    ensures
        r@ == 0x466800000000069bu64,
{
    LanguageCode::new(0x466800000000069bu64)
}

/// The code of `es`.
pub fn spanish() -> (r: LanguageCode)
    ensures
        r@ == 0x1a48000000000000u64,
{
    LanguageCode::new(0x1a48000000000000u64)
}

/// The code of `es-ES`.
pub fn european_spanish() -> (r: LanguageCode)
    ensures
        r@ == 0x1a4800000000049bu64,
{
    LanguageCode::new(0x1a4800000000049bu64)
}

/// The code of `es-419`.
pub fn latin_american_spanish() -> (r: LanguageCode)
    ensures
        r@ == 0x1a480000000001a3u64,
{
    LanguageCode::new(0x1a480000000001a3u64)
}

/// The code of `zh`.
pub fn chinese() -> (r: LanguageCode)
    ensures
        r@ == 0x6ce8000000000000u64,
{
    LanguageCode::new(0x6ce8000000000000u64)
}

/// The code of `zh-Hans`.
pub fn simplified_chinese() -> (r: LanguageCode)
    ensures
        r@ == 0x6ce80000204dd800u64,
{
    LanguageCode::new(0x6ce80000204dd800u64)
}

/// The code of `zh-Hant`.
pub fn traditional_chinese() -> (r: LanguageCode)
    ensures
        r@ == 0x6ce80000204de000u64,
{
    LanguageCode::new(0x6ce80000204de000u64)
}

/// The code of `zh-Hant-HK`.
pub fn hong_kong_chinese() -> (r: LanguageCode)
    ensures
        r@ == 0x6ce80000204de4f3u64,
{
    LanguageCode::new(0x6ce80000204de4f3u64)
}

/// The code of `no`.
pub fn norwegian() -> (r: LanguageCode)
    ensures
        r@ == 0x3dc8000000000000u64,
{
    LanguageCode::new(0x3dc8000000000000u64)
}

/// The code of `nb`.
pub fn norwegian_bokmal() -> (r: LanguageCode)
    ensures
        r@ == 0x3c28000000000000u64,
{
    LanguageCode::new(0x3c28000000000000u64)
}

/// The code of `fr`.
pub fn french() -> (r: LanguageCode)
    ensures
        r@ == 0x1e28000000000000u64,
{
    LanguageCode::new(0x1e28000000000000u64)
}

/// The code of `de`.
pub fn german() -> (r: LanguageCode)
    ensures
        r@ == 0x1488000000000000u64,
{
    LanguageCode::new(0x1488000000000000u64)
}

/// The code of `ja`.
pub fn japanese() -> (r: LanguageCode)
    ensures
        r@ == 0x2c08000000000000u64,
{
    LanguageCode::new(0x2c08000000000000u64)
}

/// The code of `ko`.
pub fn korean() -> (r: LanguageCode)
    ensures
        r@ == 0x31c8000000000000u64,
{
    LanguageCode::new(0x31c8000000000000u64)
}

/// The code of `ru`.
pub fn russian() -> (r: LanguageCode)
    ensures
        r@ == 0x4e88000000000000u64,
{
    LanguageCode::new(0x4e88000000000000u64)
}

/// The code of `ar`.
pub fn arabic() -> (r: LanguageCode)
    ensures
        r@ == 0x0a28000000000000u64,
{
    LanguageCode::new(0x0a28000000000000u64)
}

/// The code of `hi`.
pub fn hindi() -> (r: LanguageCode)
    ensures
        r@ == 0x2508000000000000u64,
{
    LanguageCode::new(0x2508000000000000u64)
}

/// The code of `sw`.
pub fn swahili() -> (r: LanguageCode)
    ensures
        r@ == 0x52c8000000000000u64,
{
    LanguageCode::new(0x52c8000000000000u64)
}

/// The code of `ta`.
pub fn tamil() -> (r: LanguageCode)
    ensures
        r@ == 0x5408000000000000u64,
{
    LanguageCode::new(0x5408000000000000u64)
}

/// The code of `fi`.
pub fn finnish() -> (r: LanguageCode)
    ensures
        r@ == 0x1d08000000000000u64,
{
    LanguageCode::new(0x1d08000000000000u64)
}

} // verus!
