use ppm_cli::bit_buffer::bit_iter::BitIterator;
use ppm_cli::compressor::{CompressionError, Compressor};
use ppm_cli::decompressor::{DecompressionError, DecompressionTimeout, Decompressor};
use ppm_cli::frequencies::{Cfi, Frequency};
use ppm_cli::interval::BoundaryInvariantViolation;
use ppm_cli::models::distributions::custom::CustomDistributionModel;
use ppm_cli::models::distributions::uniform::UniformDistributionModel;
use ppm_cli::models::{Model, ModelCfi, ModelCfiError, ModelUpdateError};
use ppm_cli::parser::{BitParser, Parser};
use ppm_cli::sim::{DefaultSIM, Symbol, SymbolIndexMapping};

fn freq(value: u64) -> Frequency {
    Frequency::new(value).unwrap()
}

fn cfi(start: u64, end: u64, total: u64) -> Cfi {
    Cfi { start: freq(start), end: freq(end), total: freq(total) }
}

fn compress<M: Model>(model: &mut M, symbols: &[Symbol]) -> Vec<u8> {
    let mut compressor = Compressor::new(model);
    let mut bytes = Vec::new();
    for symbol in symbols {
        bytes.extend(compressor.load_symbol(*symbol).unwrap());
    }
    bytes.extend(compressor.finalize());
    bytes
}

fn decompress<M: Model>(model: &mut M, bytes: Vec<u8>) -> Result<Vec<u8>, DecompressionError> {
    let mut decompressor = Decompressor::new(model, BitIterator::from(bytes));
    let mut output = Vec::new();
    loop {
        match decompressor.get_next_byte()? {
            Some(byte) => output.push(byte),
            None => return Ok(output),
        }
    }
}

fn symbols_of(bytes: &[u8]) -> Vec<Symbol> {
    let mut symbols: Vec<Symbol> = bytes.iter().map(|byte| Symbol::Byte(*byte)).collect();
    symbols.push(Symbol::Eof);
    symbols
}

/// Bytes that look random enough, from a linear congruential generator.
fn scrambled(count: usize, seed: u64) -> Vec<u8> {
    let mut state = seed;
    let mut bytes = Vec::with_capacity(count);
    for _ in 0..count {
        state = state.wrapping_mul(6364136223846793005).wrapping_add(1442695040888963407);
        bytes.push((state >> 56) as u8);
    }
    bytes
}

#[test]
fn empty_stream_is_two_bytes_and_decodes_to_nothing() {
    let mut model = UniformDistributionModel::new(DefaultSIM);
    let bytes = compress(&mut model, &[Symbol::Eof]);
    // Seven ones for the EOF, then "10" to finish: nine bits, padded to two bytes.
    assert_eq!(bytes, vec![254, 128]);

    let mut decompressor = Decompressor::new(&mut model, BitIterator::from(bytes));
    assert_eq!(decompressor.get_next_byte(), Ok(None));
}

#[test]
fn single_byte_round_trip() {
    let mut model = UniformDistributionModel::new(DefaultSIM);
    let bytes = compress(&mut model, &[Symbol::Byte(0x41), Symbol::Eof]);
    assert_eq!(bytes, vec![65, 123, 128]);

    let mut decompressor = Decompressor::new(&mut model, BitIterator::from(bytes));
    assert_eq!(decompressor.get_next_byte(), Ok(Some(0x41)));
    assert_eq!(decompressor.get_next_byte(), Ok(None));
}

#[test]
fn text_compresses_to_known_bytes() {
    let text = b"hello world, this is a test of the arithmetic coder";
    let mut model = UniformDistributionModel::new(DefaultSIM);
    let bytes = compress(&mut model, &symbols_of(text));
    assert_eq!(
        bytes,
        vec![
            103, 149, 119, 96, 197, 1, 248, 199, 130, 204, 137, 131, 186, 229, 198, 60, 244, 19,
            140, 147, 22, 63, 70, 180, 145, 101, 97, 75, 19, 179, 26, 69, 48, 240, 34, 168, 104,
            74, 197, 11, 148, 170, 118, 179, 216, 44, 211, 189, 22, 96, 38, 24, 192
        ]
    );
    assert_eq!(decompress(&mut model, bytes), Ok(text.to_vec()));
}

#[test]
fn round_trip_with_uniform_model() {
    for (count, seed) in [(0, 1), (1, 2), (2, 3), (7, 4), (100, 5), (1000, 6), (20000, 7)] {
        let input = scrambled(count, seed);
        let mut model = UniformDistributionModel::new(DefaultSIM);
        let bytes = compress(&mut model, &symbols_of(&input));
        model.flush();
        assert_eq!(decompress(&mut model, bytes), Ok(input));
    }
}

#[test]
fn round_trip_with_custom_model() {
    // Every symbol can occur, small byte values are the most likely.
    let frequencies: Vec<Frequency> =
        (0..258u64).map(|index| freq(1 + 5000 / (index + 1))).collect();
    for (count, seed) in [(0, 11), (1, 12), (50, 13), (5000, 14)] {
        let input: Vec<u8> = scrambled(count, seed).into_iter().map(|b| b % 16).collect();
        let mut model = CustomDistributionModel::new(DefaultSIM, &frequencies).unwrap();
        let bytes = compress(&mut model, &symbols_of(&input));
        model.flush();
        assert_eq!(decompress(&mut model, bytes), Ok(input));
    }
}

#[test]
fn all_zero_run_compresses() {
    // Byte 0 has 2313 of 2570, which is 0.9; every other symbol has 1.
    let mut frequencies = vec![freq(1); 258];
    frequencies[0] = freq(2313);
    let mut model = CustomDistributionModel::new(DefaultSIM, &frequencies).unwrap();
    assert_eq!(*model.get_total(), 2570);

    let input = vec![0u8; 256];
    let bytes = compress(&mut model, &symbols_of(&input));
    assert!(bytes.len() * 8 < 256 * 8);
    // 256 symbols of 0.152 bits each, an EOF of 11.3 bits and the two closing bits:
    assert!(bytes.len() <= 8);
    assert_eq!(decompress(&mut model, bytes), Ok(input));
}

struct BinarySim;

impl SymbolIndexMapping for BinarySim {
    fn get_index(&self, symbol: &Symbol) -> Option<usize> {
        match symbol {
            Symbol::Byte(0) => Some(0),
            Symbol::Byte(1) => Some(1),
            Symbol::Eof => Some(2),
            _ => None,
        }
    }

    fn get_symbol(&self, index: usize) -> Option<Symbol> {
        match index {
            0 => Some(Symbol::Byte(0)),
            1 => Some(Symbol::Byte(1)),
            2 => Some(Symbol::Eof),
            _ => None,
        }
    }

    fn supported_symbols_count(&self) -> usize {
        3
    }

    // What follows serves proofs only and is never called.
    fn wf(&self) -> bool {
        unreachable!()
    }

    fn index_of(&self, _symbol: Symbol) -> Option<usize> {
        unreachable!()
    }

    fn symbol_at(&self, _index: usize) -> Option<Symbol> {
        unreachable!()
    }

    fn count(&self) -> usize {
        unreachable!()
    }

    fn lemma_one_to_one(&self) {}
}

#[test]
fn bit_mode_round_trip() {
    let symbols = BitParser.parse_byte(0xAA);
    let bits: Vec<u8> = vec![1, 0, 1, 0, 1, 0, 1, 0];
    assert_eq!(symbols, bits.iter().map(|bit| Symbol::Byte(*bit)).collect::<Vec<_>>());

    let mut model = UniformDistributionModel::new(BinarySim);
    let mut all = symbols;
    all.push(Symbol::Eof);
    let bytes = compress(&mut model, &all);
    let decoded = decompress(&mut model, bytes).unwrap();
    assert_eq!(decoded, bits);

    // Regroup the bits, most significant first:
    let byte = decoded.iter().fold(0u8, |byte, bit| (byte << 1) | bit);
    assert_eq!(byte, 0xAA);
}

#[test]
fn unsupported_symbol_is_reported_and_changes_nothing() {
    let mut model = UniformDistributionModel::new(BinarySim);
    let mut compressor = Compressor::new(&mut model);
    assert_eq!(
        compressor.load_symbol(Symbol::Byte(7)),
        Err(CompressionError::Model(ModelCfiError::UnsupportedSymbol(Symbol::Byte(7))))
    );
    assert_eq!(compressor.load_symbol(Symbol::Byte(1)), Ok(vec![]));
    assert_eq!(compressor.load_symbol(Symbol::Eof), Ok(vec![]));
    let bytes = compressor.finalize();

    let mut expected_model = UniformDistributionModel::new(BinarySim);
    assert_eq!(bytes, compress(&mut expected_model, &[Symbol::Byte(1), Symbol::Eof]));
}

#[test]
fn empty_cfi_is_reported() {
    let mut frequencies = vec![freq(1); 258];
    frequencies[65] = freq(0);
    let mut model = CustomDistributionModel::new(DefaultSIM, &frequencies).unwrap();
    let mut compressor = Compressor::new(&mut model);
    assert_eq!(
        compressor.load_symbol(Symbol::Byte(65)),
        Err(CompressionError::Model(ModelCfiError::EmptyCfi { symbol: Symbol::Byte(65) }))
    );
}

#[test]
fn escape_symbol_is_compressed_once_and_passed_over_by_the_decoder() {
    let mut model = UniformDistributionModel::new(DefaultSIM);
    let symbols = [Symbol::Byte(1), Symbol::Esc, Symbol::Byte(2), Symbol::Eof];
    let bytes = compress(&mut model, &symbols);
    assert_eq!(decompress(&mut model, bytes), Ok(vec![1, 2]));
}

/// A mapping of six symbols in which index 5 stands for the escape symbol.
struct SmallSim;

impl SymbolIndexMapping for SmallSim {
    fn get_index(&self, symbol: &Symbol) -> Option<usize> {
        match symbol {
            Symbol::Byte(b) if *b < 4 => Some(*b as usize),
            Symbol::Eof => Some(4),
            Symbol::Esc => Some(5),
            _ => None,
        }
    }

    fn get_symbol(&self, index: usize) -> Option<Symbol> {
        match index {
            0..=3 => Some(Symbol::Byte(index as u8)),
            4 => Some(Symbol::Eof),
            5 => Some(Symbol::Esc),
            _ => None,
        }
    }

    fn supported_symbols_count(&self) -> usize {
        6
    }

    // What follows serves proofs only and is never called.
    fn wf(&self) -> bool {
        unreachable!()
    }

    fn index_of(&self, _symbol: Symbol) -> Option<usize> {
        unreachable!()
    }

    fn symbol_at(&self, _index: usize) -> Option<Symbol> {
        unreachable!()
    }

    fn count(&self) -> usize {
        unreachable!()
    }

    fn lemma_one_to_one(&self) {}
}

/// A model of two contexts. The first knows the bytes 0 and 1 and the escape symbol; it answers
/// every other symbol with the escape CFI and then hands over to the second, which knows all
/// symbols of the mapping. After a plain answer the first context is in charge again.
struct TwoContexts {
    first: CustomDistributionModel<SmallSim>,
    second: CustomDistributionModel<SmallSim>,
    in_second: bool,
    answers: Vec<&'static str>,
}

impl TwoContexts {
    fn new() -> Self {
        let first = [freq(3), freq(2), freq(0), freq(0), freq(0), freq(1)];
        let second = [freq(1), freq(1), freq(4), freq(2), freq(2), freq(0)];
        TwoContexts {
            first: CustomDistributionModel::new(SmallSim, &first).unwrap(),
            second: CustomDistributionModel::new(SmallSim, &second).unwrap(),
            in_second: false,
            answers: Vec::new(),
        }
    }

    fn context(&self) -> &CustomDistributionModel<SmallSim> {
        if self.in_second {
            &self.second
        } else {
            &self.first
        }
    }
}

impl Model for TwoContexts {
    fn get_cfi(&self, symbol: Symbol) -> Result<ModelCfi, ModelCfiError> {
        match self.context().get_cfi(symbol) {
            Err(ModelCfiError::EmptyCfi { .. }) if !self.in_second => {
                self.first.get_cfi(Symbol::Esc)
            }
            answer => answer,
        }
    }

    fn get_symbol(&self, cumulative_frequency: Frequency) -> Option<Symbol> {
        self.context().get_symbol(cumulative_frequency)
    }

    fn get_total(&self) -> Frequency {
        self.context().get_total()
    }

    fn flush(&mut self) {
        self.in_second = false;
        self.answers.clear();
    }

    fn update(&mut self, _symbol: Symbol, model_result: &ModelCfi) -> Result<(), ModelUpdateError> {
        match model_result {
            ModelCfi::EscapeCfi(_) => {
                self.answers.push("escape");
                self.in_second = true;
            }
            ModelCfi::IndexCfi(_) => {
                self.answers.push("index");
                self.in_second = false;
            }
        }
        Ok(())
    }

    // What follows serves proofs only and is never called.
    fn wf(&self) -> bool {
        unreachable!()
    }

    fn cfi_of(&self, _symbol: Symbol) -> Result<ModelCfi, ModelCfiError> {
        unreachable!()
    }

    fn symbol_of(&self, _cumulative_frequency: Frequency) -> Option<Symbol> {
        unreachable!()
    }

    fn total(&self) -> Frequency {
        unreachable!()
    }

    fn update_outcome(&self, _symbol: Symbol, _model_result: ModelCfi) -> Result<(), ModelUpdateError> {
        unreachable!()
    }

    fn follows(&self, _before: &Self, _symbol: Symbol, _model_result: ModelCfi) -> bool {
        unreachable!()
    }

    fn escapes_left(&self) -> usize {
        unreachable!()
    }

    fn lemma_cfi_of(&self, _symbol: Symbol) {}

    fn lemma_symbol_of(&self, _cumulative_frequency: Frequency) {}

    fn lemma_cfi_found(&self, _symbol: Symbol, _cumulative_frequency: Frequency) {}
}

#[test]
fn escape_path_issues_one_escape_then_the_index() {
    let mut model = TwoContexts::new();
    // In the first context byte 2 has no frequency, so the model escapes:
    assert_eq!(model.get_cfi(Symbol::Byte(2)), Ok(ModelCfi::EscapeCfi(cfi(5, 6, 6))));
    assert_eq!(model.get_cfi(Symbol::Byte(1)), Ok(ModelCfi::IndexCfi(cfi(3, 5, 6))));

    let mut compressor = Compressor::new(&mut model);
    let mut bytes = compressor.load_symbol(Symbol::Byte(2)).unwrap();
    bytes.extend(compressor.finalize());
    assert_eq!(model.answers, vec!["escape", "index"]);

    model.flush();
    let mut decompressor = Decompressor::new(&mut model, BitIterator::from(bytes));
    assert_eq!(decompressor.get_next_byte(), Ok(Some(2)));
    assert_eq!(model.answers, vec!["escape", "index"]);
}

#[test]
fn round_trip_with_escapes() {
    let input: Vec<u8> = scrambled(300, 21).into_iter().map(|b| b % 4).collect();
    let mut model = TwoContexts::new();
    let bytes = compress(&mut model, &symbols_of(&input));
    let escapes = model.answers.iter().filter(|answer| **answer == "escape").count();
    // One escape for each byte 2 or 3, and one for the EOF:
    assert_eq!(escapes, input.iter().filter(|byte| **byte >= 2).count() + 1);

    model.flush();
    assert_eq!(decompress(&mut model, bytes), Ok(input));
}

#[test]
fn decoder_times_out_on_truncated_stream() {
    let text = b"hello world, this is a test of the arithmetic coder";
    let mut model = UniformDistributionModel::new(DefaultSIM);
    let mut bytes = compress(&mut model, &symbols_of(text));
    bytes.truncate(10);

    let mut decompressor = Decompressor::new(&mut model, BitIterator::from(bytes));
    let mut decoded = Vec::new();
    let outcome = loop {
        match decompressor.get_next_byte() {
            Ok(Some(byte)) => decoded.push(byte),
            other => break other,
        }
    };
    // The bytes that the 80 bits determine, one that the made-up zeros give, then the timeout:
    assert_eq!(decoded, vec![104, 101, 108, 108, 111, 32, 119, 111, 114, 107, 208]);
    assert_eq!(outcome, Err(DecompressionError::Timeout(DecompressionTimeout)));
    // The timeout stays:
    assert_eq!(
        decompressor.get_next_byte(),
        Err(DecompressionError::Timeout(DecompressionTimeout))
    );
}

#[test]
fn decoder_times_out_on_no_bits() {
    let mut model = UniformDistributionModel::new(DefaultSIM);
    let mut decompressor = Decompressor::new(&mut model, BitIterator::from(Vec::new()));
    assert_eq!(
        decompressor.get_next_byte(),
        Err(DecompressionError::Timeout(DecompressionTimeout))
    );
}

#[test]
fn decoder_reports_model_without_frequencies() {
    let frequencies = vec![freq(0); 258];
    let mut model = CustomDistributionModel::new(DefaultSIM, &frequencies).unwrap();
    let mut decompressor = Decompressor::new(&mut model, BitIterator::from(vec![0u8; 8]));
    assert_eq!(
        decompressor.get_next_byte(),
        Err(DecompressionError::InvalidCumulativeFrequency)
    );
}

/// A model that finds no symbol, or one that it has no CFI for, or does not take updates.
struct Broken {
    finds: Option<Symbol>,
}

impl Model for Broken {
    fn get_cfi(&self, symbol: Symbol) -> Result<ModelCfi, ModelCfiError> {
        match symbol {
            Symbol::Byte(0) => Ok(ModelCfi::IndexCfi(cfi(0, 4, 4))),
            _ => Err(ModelCfiError::UnsupportedSymbol(symbol)),
        }
    }

    fn get_symbol(&self, _cumulative_frequency: Frequency) -> Option<Symbol> {
        self.finds
    }

    fn get_total(&self) -> Frequency {
        freq(4)
    }

    fn update(&mut self, _symbol: Symbol, _model_result: &ModelCfi) -> Result<(), ModelUpdateError> {
        Err(ModelUpdateError { message: String::from("no updates") })
    }

    // What follows serves proofs only and is never called.
    fn wf(&self) -> bool {
        unreachable!()
    }

    fn cfi_of(&self, _symbol: Symbol) -> Result<ModelCfi, ModelCfiError> {
        unreachable!()
    }

    fn symbol_of(&self, _cumulative_frequency: Frequency) -> Option<Symbol> {
        unreachable!()
    }

    fn total(&self) -> Frequency {
        unreachable!()
    }

    fn update_outcome(&self, _symbol: Symbol, _model_result: ModelCfi) -> Result<(), ModelUpdateError> {
        unreachable!()
    }

    fn follows(&self, _before: &Self, _symbol: Symbol, _model_result: ModelCfi) -> bool {
        unreachable!()
    }

    fn escapes_left(&self) -> usize {
        unreachable!()
    }

    fn lemma_cfi_of(&self, _symbol: Symbol) {}

    fn lemma_symbol_of(&self, _cumulative_frequency: Frequency) {}

    fn lemma_cfi_found(&self, _symbol: Symbol, _cumulative_frequency: Frequency) {}
}

#[test]
fn decoder_reports_model_errors() {
    let mut model = Broken { finds: None };
    let mut decompressor = Decompressor::new(&mut model, BitIterator::from(vec![0u8; 8]));
    assert_eq!(decompressor.get_next_byte(), Err(DecompressionError::UnknownSymbol));

    let mut model = Broken { finds: Some(Symbol::Byte(9)) };
    let mut decompressor = Decompressor::new(&mut model, BitIterator::from(vec![0u8; 8]));
    assert_eq!(
        decompressor.get_next_byte(),
        Err(DecompressionError::Model(ModelCfiError::UnsupportedSymbol(Symbol::Byte(9))))
    );

    let mut model = Broken { finds: Some(Symbol::Byte(0)) };
    let mut decompressor = Decompressor::new(&mut model, BitIterator::from(vec![0u8; 8]));
    assert_eq!(
        decompressor.get_next_byte(),
        Err(DecompressionError::Update(ModelUpdateError { message: String::from("no updates") }))
    );
}

#[test]
fn compressor_reports_update_error() {
    let mut model = Broken { finds: None };
    let mut compressor = Compressor::new(&mut model);
    assert_eq!(
        compressor.load_symbol(Symbol::Byte(0)),
        Err(CompressionError::Update(ModelUpdateError { message: String::from("no updates") }))
    );
}

#[test]
fn cfi_without_room_is_rejected() {
    let mut model = UniformDistributionModel::new(DefaultSIM);
    let mut compressor = Compressor::new(&mut model);
    // Leaves [3 * 2^29, 9 * 2^29 - 1], one and a half times as wide as the largest total:
    assert_eq!(compressor.load_cfi(cfi(3, 9, 16)), Ok(()));
    assert_eq!(
        compressor.load_cfi(cfi(0, 1, 0x7fff_ffff)),
        Err(CompressionError::Interval(BoundaryInvariantViolation))
    );
    // The same interval has room for two of that total:
    assert_eq!(compressor.load_cfi(cfi(1, 3, 0x7fff_ffff)), Ok(()));
}

#[test]
fn load_cfi_is_what_load_symbol_does() {
    let mut model = UniformDistributionModel::new(DefaultSIM);
    let mut by_symbol = Compressor::new(&mut model);
    let mut bytes = by_symbol.load_symbol(Symbol::Byte(0x41)).unwrap();
    bytes.extend(by_symbol.load_symbol(Symbol::Eof).unwrap());
    bytes.extend(by_symbol.finalize());

    let mut model = UniformDistributionModel::new(DefaultSIM);
    let mut by_cfi = Compressor::new(&mut model);
    assert_eq!(by_cfi.load_cfi(cfi(0x41, 0x42, 258)), Ok(()));
    assert_eq!(by_cfi.load_cfi(cfi(256, 257, 258)), Ok(()));
    assert_eq!(by_cfi.finalize(), bytes);
}
