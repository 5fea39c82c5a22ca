pub mod bencode;
pub mod highlight;

pub use bencode::benchode_highlight;
