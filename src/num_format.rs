use vstd::prelude::*;
use formato::Formato;

verus! {

/// What formato's `N0` format makes of a `u128`: its decimal digits, grouped
/// by thousands.
pub uninterp spec fn grouped_u128(n: u128) -> Seq<char>;

/// What formato's `N0` format makes of an `i128`: its sign and decimal
/// digits, grouped by thousands.
pub uninterp spec fn grouped_i128(n: i128) -> Seq<char>;

/// Relies on `<u128 as formato::Formato>::formato` with the format `N0`:
/// the result depends on the number alone.
#[verifier::external_body]
fn formato_u128(n: u128) -> (r: String)
    ensures
        r@ == grouped_u128(n),
{
    n.formato("N0")
}

/// Relies on `<i128 as formato::Formato>::formato` with the format `N0`:
/// the result depends on the number alone.
#[verifier::external_body]
fn formato_i128(n: i128) -> (r: String)
    ensures
        r@ == grouped_i128(n),
{
    n.formato("N0")
}

/// Numbers written with thousands separators, as in `1,024`.
pub trait ToFormattedString: Sized {
    /// The text of the number.
    spec fn formatted(&self) -> Seq<char>;

    fn to_formatted_string(&self) -> (r: String)
        ensures
            r@ == self.formatted(),
    ;
}

impl ToFormattedString for u32 {
    open spec fn formatted(&self) -> Seq<char> {
        grouped_u128(*self as u128)
    }

    fn to_formatted_string(&self) -> (r: String) {
        formato_u128(*self as u128)
    }
}

impl ToFormattedString for u64 {
    open spec fn formatted(&self) -> Seq<char> {
        grouped_u128(*self as u128)
    }

    fn to_formatted_string(&self) -> (r: String) {
        formato_u128(*self as u128)
    }
}

impl ToFormattedString for u128 {
    open spec fn formatted(&self) -> Seq<char> {
        grouped_u128(*self)
    }

    fn to_formatted_string(&self) -> (r: String) {
        formato_u128(*self)
    }
}

impl ToFormattedString for i128 {
    open spec fn formatted(&self) -> Seq<char> {
        grouped_i128(*self)
    }

    fn to_formatted_string(&self) -> (r: String) {
        formato_i128(*self)
    }
}

} // verus!
