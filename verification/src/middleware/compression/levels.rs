//! Compression levels, one type per algorithm.
//!
//! Not a shared scale, deliberately: the three algorithms number their levels
//! differently and have their knee in a different place, so each is its own
//! type, each refuses a number its own format does not define, and none
//! converts into another.

use vstd::prelude::*;

verus! {

/// A gzip (DEFLATE) level, 0 to 9.
#[derive(Clone, Copy, Debug, PartialEq, Eq, PartialOrd, Ord, Hash, Structural)]
pub struct GzipLevel(u32);

impl GzipLevel {
    /// A level is fixed by its number: two levels that report the same number
    /// are the same level, so `new(l.get())` gives `l` back.
    pub proof fn one_number_one_level(a: Self, b: Self)
        requires
            a.spec_get() == b.spec_get(),
        ensures
            a == b,
    {
    }

    #[verifier::type_invariant]
    spec fn defined(self) -> bool {
        self.0 <= 9
    }

    /// The level.
    pub closed spec fn spec_get(self) -> u32 {
        self.0
    }

    /// Level 6, zlib's own default.
    pub fn default_level() -> (r: Self)
        ensures
            r.spec_get() == 6,
    {
        GzipLevel(6)
    }

    /// Level 1.
    pub fn fastest() -> (r: Self)
        ensures
            r.spec_get() == 1,
    {
        GzipLevel(1)
    }

    /// Level 9.
    pub fn best() -> (r: Self)
        ensures
            r.spec_get() == 9,
    {
        GzipLevel(9)
    }

    /// The level `level`, where DEFLATE defines it.
    pub fn new(level: u32) -> (r: Option<Self>)
        ensures
            r is Some <==> level <= 9,
            r matches Some(l) ==> l.spec_get() == level,
    {
        if level <= 9 {
            Some(GzipLevel(level))
        } else {
            None
        }
    }

    /// The level.
    pub fn get(self) -> (r: u32)
        ensures
            r == self.spec_get(),
            r <= 9,
    {
        proof {
            use_type_invariant(self);
        }
        self.0
    }
}

impl Default for GzipLevel {
    fn default() -> (r: Self)
        ensures
            r.spec_get() == 6,
    {
        GzipLevel::default_level()
    }
}

/// A brotli quality, 0 to 11.
#[derive(Clone, Copy, Debug, PartialEq, Eq, PartialOrd, Ord, Hash, Structural)]
pub struct BrotliLevel(u32);

impl BrotliLevel {
    /// A level is fixed by its number: two levels that report the same number
    /// are the same level, so `new(l.get())` gives `l` back.
    pub proof fn one_number_one_level(a: Self, b: Self)
        requires
            a.spec_get() == b.spec_get(),
        ensures
            a == b,
    {
    }

    #[verifier::type_invariant]
    spec fn defined(self) -> bool {
        self.0 <= 11
    }

    /// The quality.
    pub closed spec fn spec_get(self) -> u32 {
        self.0
    }

    /// Quality 4: the reference encoder's 11 costs a fifth of a second of CPU
    /// per document, which a request cannot afford.
    pub fn default_level() -> (r: Self)
        ensures
            r.spec_get() == 4,
    {
        BrotliLevel(4)
    }

    /// Quality 1.
    pub fn fastest() -> (r: Self)
        ensures
            r.spec_get() == 1,
    {
        BrotliLevel(1)
    }

    /// Quality 11.
    pub fn best() -> (r: Self)
        ensures
            r.spec_get() == 11,
    {
        BrotliLevel(11)
    }

    /// The quality `level`, where RFC 7932 defines it.
    pub fn new(level: u32) -> (r: Option<Self>)
        ensures
            r is Some <==> level <= 11,
            r matches Some(l) ==> l.spec_get() == level,
    {
        if level <= 11 {
            Some(BrotliLevel(level))
        } else {
            None
        }
    }

    /// The quality.
    pub fn get(self) -> (r: u32)
        ensures
            r == self.spec_get(),
            r <= 11,
    {
        proof {
            use_type_invariant(self);
        }
        self.0
    }
}

impl Default for BrotliLevel {
    fn default() -> (r: Self)
        ensures
            r.spec_get() == 4,
    {
        BrotliLevel::default_level()
    }
}

/// A zstd level, 1 to 22; the negative fast levels are deliberately
/// unreachable.
#[derive(Clone, Copy, Debug, PartialEq, Eq, PartialOrd, Ord, Hash, Structural)]
pub struct ZstdLevel(i32);

impl ZstdLevel {
    /// A level is fixed by its number: two levels that report the same number
    /// are the same level, so `new(l.get())` gives `l` back.
    pub proof fn one_number_one_level(a: Self, b: Self)
        requires
            a.spec_get() == b.spec_get(),
        ensures
            a == b,
    {
    }

    #[verifier::type_invariant]
    spec fn defined(self) -> bool {
        1 <= self.0 <= 22
    }

    /// The level.
    pub closed spec fn spec_get(self) -> i32 {
        self.0
    }

    /// Level 3, the encoder's own default.
    pub fn default_level() -> (r: Self)
        ensures
            r.spec_get() == 3,
    {
        ZstdLevel(3)
    }

    /// Level 1.
    pub fn fastest() -> (r: Self)
        ensures
            r.spec_get() == 1,
    {
        ZstdLevel(1)
    }

    /// Level 22.
    pub fn best() -> (r: Self)
        ensures
            r.spec_get() == 22,
    {
        ZstdLevel(22)
    }

    /// The level `level`, where the encoder defines it.
    pub fn new(level: i32) -> (r: Option<Self>)
        ensures
            r is Some <==> 1 <= level <= 22,
            r matches Some(l) ==> l.spec_get() == level,
    {
        if level >= 1 && level <= 22 {
            Some(ZstdLevel(level))
        } else {
            None
        }
    }

    /// The level.
    pub fn get(self) -> (r: i32)
        ensures
            r == self.spec_get(),
            1 <= r <= 22,
    {
        proof {
            use_type_invariant(self);
        }
        self.0
    }
}

impl Default for ZstdLevel {
    fn default() -> (r: Self)
        ensures
            r.spec_get() == 3,
    {
        ZstdLevel::default_level()
    }
}

/// A level as the encoder takes it: the same number, signed.
pub fn as_level(level: u32) -> (r: i32)
    ensures
        r == (if level <= i32::MAX {
            level as i32
        } else {
            i32::MAX
        }),
{
    if level <= i32::MAX as u32 {
        level as i32
    } else {
        i32::MAX
    }
}

} // verus!
