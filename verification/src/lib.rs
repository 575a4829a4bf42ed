pub mod aggregate;
pub mod amount;
pub mod category;
pub mod insight;
pub mod model;
pub mod parse;
pub mod report;
pub mod text;
