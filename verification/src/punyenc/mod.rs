//! A Punycode encoder that uses sorted code points and a Fenwick tree.
//!
//! [`encode`] returns raw RFC 3492 Punycode. It does not normalize Unicode, split
//! domain labels or add the `xn--` prefix of IDNA.

pub mod bootstring;
pub mod counting;
pub mod decoding;
pub mod encode;
pub mod fenwick;
pub mod textbook;

pub use encode::encode;
