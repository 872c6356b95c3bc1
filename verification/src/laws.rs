//! What holds of the library as a whole.
pub mod answers;
pub mod arithmetic;
pub mod balances;
pub mod beginnings;
pub mod books;
pub mod entries;
pub mod fills;
pub mod levels;
pub mod marks;
pub mod numbers;
pub mod orders;
pub mod runs;
pub mod sent;
pub mod settlements;
pub mod texts;
pub mod volumes;
