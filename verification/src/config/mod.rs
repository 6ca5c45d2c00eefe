pub mod boot_header;
pub mod gpt_parser;
