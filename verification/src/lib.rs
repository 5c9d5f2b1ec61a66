pub mod bit_buffer;
pub mod compressor;
pub mod decompressor;
pub mod frequencies;
pub mod interval;
pub mod models;
pub mod number_types;
pub mod parser;
pub mod round_trip;
pub mod sim;
