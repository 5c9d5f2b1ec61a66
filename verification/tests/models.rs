use ppm_cli::frequencies::{Cfi, Frequency, OverflowOnTableBuild};
use ppm_cli::models::distributions::custom::{CustomDistributionModel, CustomModelError};
use ppm_cli::models::distributions::uniform::UniformDistributionModel;
use ppm_cli::models::{Model, ModelCfi, ModelCfiError};
use ppm_cli::sim::{DefaultSIM, Symbol, SymbolIndexMapping, UNIQUE_SYMBOLS_AMOUNT};

fn freq(value: u64) -> Frequency {
    Frequency::new(value).unwrap()
}

fn cfi(start: u64, end: u64, total: u64) -> Cfi {
    Cfi { start: freq(start), end: freq(end), total: freq(total) }
}

#[test]
fn default_sim_maps_every_symbol() {
    let sim = DefaultSIM;
    assert_eq!(sim.supported_symbols_count(), 258);
    assert_eq!(UNIQUE_SYMBOLS_AMOUNT, 258);
    assert_eq!(sim.get_index(&Symbol::Byte(0)), Some(0));
    assert_eq!(sim.get_index(&Symbol::Byte(255)), Some(255));
    assert_eq!(sim.get_index(&Symbol::Eof), Some(256));
    assert_eq!(sim.get_index(&Symbol::Esc), Some(257));
    assert_eq!(sim.get_symbol(258), None);
}

#[test]
fn default_sim_is_one_to_one() {
    let sim = DefaultSIM;
    for index in 0..sim.supported_symbols_count() {
        let symbol = sim.get_symbol(index).unwrap();
        assert_eq!(sim.get_index(&symbol), Some(index));
    }
    for byte in 0..=255u8 {
        let index = sim.get_index(&Symbol::Byte(byte)).unwrap();
        assert_eq!(sim.get_symbol(index), Some(Symbol::Byte(byte)));
    }
}

#[test]
fn is_escape_tells_the_escape_symbol() {
    assert!(Symbol::Esc.is_escape());
    assert!(!Symbol::Eof.is_escape());
    assert!(!Symbol::Byte(27).is_escape());
}

#[test]
fn uniform_model_gives_each_symbol_one_of_the_total() {
    let model = UniformDistributionModel::new(DefaultSIM);
    assert_eq!(*model.get_total(), 258);
    assert_eq!(model.get_cfi(Symbol::Byte(0)), Ok(ModelCfi::IndexCfi(cfi(0, 1, 258))));
    assert_eq!(model.get_cfi(Symbol::Byte(65)), Ok(ModelCfi::IndexCfi(cfi(65, 66, 258))));
    assert_eq!(model.get_cfi(Symbol::Eof), Ok(ModelCfi::IndexCfi(cfi(256, 257, 258))));
    assert_eq!(model.get_cfi(Symbol::Esc), Ok(ModelCfi::EscapeCfi(cfi(257, 258, 258))));
}

#[test]
fn uniform_model_finds_symbols() {
    let model = UniformDistributionModel::new(DefaultSIM);
    assert_eq!(model.get_symbol(freq(0)), Some(Symbol::Byte(0)));
    assert_eq!(model.get_symbol(freq(255)), Some(Symbol::Byte(255)));
    assert_eq!(model.get_symbol(freq(256)), Some(Symbol::Eof));
    assert_eq!(model.get_symbol(freq(257)), Some(Symbol::Esc));
    assert_eq!(model.get_symbol(freq(258)), None);
}

#[test]
fn uniform_model_takes_updates_and_flushes() {
    let mut model = UniformDistributionModel::new(DefaultSIM);
    let answer = model.get_cfi(Symbol::Byte(1)).unwrap();
    assert_eq!(model.update(Symbol::Byte(1), &answer), Ok(()));
    model.flush();
    assert_eq!(model.get_cfi(Symbol::Byte(1)), Ok(answer));
    assert_eq!(answer.cfi(), cfi(1, 2, 258));
}

fn ramp() -> Vec<Frequency> {
    (0..258u64).map(|index| freq(index % 3)).collect()
}

#[test]
fn custom_model_follows_its_table() {
    // The frequencies are 0, 1, 2, 0, 1, 2, ...: 258 in all.
    let model = CustomDistributionModel::new(DefaultSIM, &ramp()).unwrap();
    assert_eq!(*model.get_total(), 258);
    assert_eq!(
        model.get_cfi(Symbol::Byte(0)),
        Err(ModelCfiError::EmptyCfi { symbol: Symbol::Byte(0) })
    );
    assert_eq!(model.get_cfi(Symbol::Byte(1)), Ok(ModelCfi::IndexCfi(cfi(0, 1, 258))));
    assert_eq!(model.get_cfi(Symbol::Byte(2)), Ok(ModelCfi::IndexCfi(cfi(1, 3, 258))));
    assert_eq!(model.get_cfi(Symbol::Byte(4)), Ok(ModelCfi::IndexCfi(cfi(3, 4, 258))));
    assert_eq!(model.get_cfi(Symbol::Eof), Ok(ModelCfi::IndexCfi(cfi(255, 256, 258))));
    assert_eq!(model.get_cfi(Symbol::Esc), Ok(ModelCfi::EscapeCfi(cfi(256, 258, 258))));
}

#[test]
fn custom_model_finds_the_symbol_whose_cfi_holds_the_value() {
    let model = CustomDistributionModel::new(DefaultSIM, &ramp()).unwrap();
    assert_eq!(model.get_symbol(freq(0)), Some(Symbol::Byte(1)));
    assert_eq!(model.get_symbol(freq(1)), Some(Symbol::Byte(2)));
    assert_eq!(model.get_symbol(freq(2)), Some(Symbol::Byte(2)));
    assert_eq!(model.get_symbol(freq(3)), Some(Symbol::Byte(4)));
    assert_eq!(model.get_symbol(freq(255)), Some(Symbol::Eof));
    assert_eq!(model.get_symbol(freq(257)), Some(Symbol::Esc));
    assert_eq!(model.get_symbol(freq(258)), None);

    for value in 0..258 {
        let symbol = model.get_symbol(freq(value)).unwrap();
        let found = model.get_cfi(symbol).unwrap().cfi();
        assert!(*found.start <= value && value < *found.end);
    }
}

#[test]
fn custom_model_needs_one_frequency_for_each_symbol() {
    let result = CustomDistributionModel::new(DefaultSIM, &[freq(1), freq(2)]);
    assert_eq!(
        result.err(),
        Some(CustomModelError::LengthMismatch { supported: 258, given: 2 })
    );
}

#[test]
fn custom_model_rejects_overflow() {
    let mut frequencies = vec![freq(0); 258];
    frequencies[3] = Frequency::max();
    frequencies[9] = freq(1);
    let result = CustomDistributionModel::new(DefaultSIM, &frequencies);
    assert_eq!(
        result.err(),
        Some(CustomModelError::Overflow(OverflowOnTableBuild { index: 9 }))
    );
}
