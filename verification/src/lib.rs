pub mod encoding;
pub mod errors;
pub mod extract;
pub mod info;
pub mod paths;
pub mod times;
