pub mod byte_reader;
pub mod contact;
pub mod errors;
pub mod nk2_data_parser;
pub mod nk2_definitions;
