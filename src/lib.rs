//! Unigram and digram frequency tables of a text corpus, with spelling
//! correction of out-of-vocabulary words against a lexical oracle.
pub mod chars;
pub mod correction;
pub mod order;
pub mod table;
pub mod render;
pub mod lang;
pub mod cache;
pub mod pass;
pub mod laws;
pub mod timing;

pub use correction::{from_old_treaty_to_new_treaty_orthographic, map_accents, AccentTable};
pub use lang::{Lang, WordPattern};
pub use pass::{count_words, Lexicon, Pass};
pub use render::{decimal_mark2, make_string_from_BTreeHap};
pub use table::FreqTable;
pub use timing::time_it;
