pub mod concurrent;
pub mod sequential;
