//! Locating elements by class name or by tag inside raw HTML text, without
//! building a document tree, and the page readings built on top of that.
pub mod menu;
pub mod page;
pub mod scraper;
pub mod table;
pub mod text;

pub use menu::{clean_text, generate_cache_key, key_from_lowered, BeerEntry};
pub use page::{extract_menu_json_url, extract_rating_link, AppError};
pub use scraper::{find_elements_by_class, find_first_anchor, Element};
pub use table::{render_table, unquote, AbvBand, PAGE_HEAD};
