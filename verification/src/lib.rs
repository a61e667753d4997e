pub mod sieve;
pub mod smtp;
pub mod text;
