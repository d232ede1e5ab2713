pub mod chars;
pub mod html;
pub mod patterns;
pub mod records;
pub mod rule;
pub mod scrape_data;
pub mod template;
pub mod text;
pub mod unicode;
pub mod rename_files;
