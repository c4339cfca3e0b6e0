//! What holds of every compilation, stated over the models that the
//! contracts of the compiler use, and proved.

pub mod arithmetic;
pub mod counting;
pub mod labels;
pub mod literals;
pub mod order;
