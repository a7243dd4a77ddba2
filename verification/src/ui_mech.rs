//! The UI mechanism layer's verified core: input routing per the mechanism
//! contract (implicit capture, activation is not focus, wheel on hover, keys and
//! text as two channels), window identity, the shadow blur, paint statistics and
//! the colour vocabulary.
use vstd::prelude::*;

pub mod a11y;
pub mod blur;
pub mod error;
pub mod fill;
pub mod input;
pub mod paint;
pub mod route;
pub mod text;
pub mod window;

verus! {

} // verus!
