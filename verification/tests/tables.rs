use ppm_cli::frequencies::mutable_table::fenwick::{lsb, FenwickTree};
use ppm_cli::frequencies::mutable_table::MutableFrequencyTable;
use ppm_cli::frequencies::static_table::StaticFrequencyTable;
use ppm_cli::frequencies::{Cfi, Frequency, FrequencyTable, OverflowOnTableBuild};

fn freq(value: u64) -> Frequency {
    Frequency::new(value).unwrap()
}

fn freqs(values: &[u64]) -> Vec<Frequency> {
    values.iter().map(|value| freq(*value)).collect()
}

fn cfi(start: u64, end: u64, total: u64) -> Cfi {
    Cfi { start: freq(start), end: freq(end), total: freq(total) }
}

#[test]
fn static_table_overflow_names_the_index() {
    let result = StaticFrequencyTable::new(&[Frequency::max(), Frequency::one()]);
    assert_eq!(result.err(), Some(OverflowOnTableBuild { index: 1 }));

    let result = MutableFrequencyTable::new(&[Frequency::max(), Frequency::one()]);
    assert_eq!(result.err(), Some(OverflowOnTableBuild { index: 1 }));
}

#[test]
fn tables_hold_the_largest_total() {
    let values = [Frequency::max(), freq(0)];
    let table = StaticFrequencyTable::new(&values).unwrap();
    assert_eq!(table.get_total(), Frequency::max());
    assert_eq!(table.get_cfi(0), Some(cfi(0, 0x7fff_ffff, 0x7fff_ffff)));
    let table = MutableFrequencyTable::new(&values).unwrap();
    assert_eq!(table.get_total(), Frequency::max());
}

#[test]
fn empty_tables_have_nothing() {
    let table = StaticFrequencyTable::new(&[]).unwrap();
    assert_eq!(*table.get_total(), 0);
    assert_eq!(table.get_cfi(0), None);
    assert_eq!(table.get_index(freq(0)), None);

    let table = MutableFrequencyTable::new(&[]).unwrap();
    assert_eq!(*table.get_total(), 0);
    assert_eq!(table.get_cfi(0), None);
    assert_eq!(table.get_index(freq(0)), None);
}

#[test]
fn tables_agree_on_every_query() {
    let values = freqs(&[3, 0, 0, 7, 1, 0, 12, 5, 0, 0, 2, 9, 0]);
    let fixed = StaticFrequencyTable::new(&values).unwrap();
    let mutable = MutableFrequencyTable::new(&values).unwrap();
    assert_eq!(*fixed.get_total(), 39);
    assert_eq!(fixed.get_total(), mutable.get_total());
    for index in 0..15 {
        assert_eq!(fixed.get_cfi(index), mutable.get_cfi(index));
    }
    for value in 0..45 {
        assert_eq!(fixed.get_index(freq(value)), mutable.get_index(freq(value)));
    }
    // Zero frequencies are passed over:
    assert_eq!(fixed.get_index(freq(2)), Some(0));
    assert_eq!(fixed.get_index(freq(3)), Some(3));
    assert_eq!(fixed.get_index(freq(38)), Some(11));
    assert_eq!(fixed.get_index(freq(39)), None);
    assert_eq!(fixed.get_cfi(3), Some(cfi(3, 10, 39)));
}

#[test]
fn index_is_the_one_whose_cfi_holds_the_value() {
    let values = freqs(&[1, 2, 0, 3, 0, 4]);
    let table = StaticFrequencyTable::new(&values).unwrap();
    for value in 0..10 {
        let index = table.get_index(freq(value)).unwrap();
        let found = table.get_cfi(index).unwrap();
        assert!(*found.start <= value && value < *found.end);
        assert_eq!(*found.total, 10);
    }
}

#[test]
fn add_frequency_keeps_total_and_tree_together() {
    let mut table = MutableFrequencyTable::new(&freqs(&[1, 1, 1])).unwrap();
    table.add_frequency(0, freq(10));
    table.add_frequency(2, freq(5));
    assert_eq!(*table.get_total(), 18);
    assert_eq!(table.get_cfi(0), Some(cfi(0, 11, 18)));
    assert_eq!(table.get_cfi(1), Some(cfi(11, 12, 18)));
    assert_eq!(table.get_cfi(2), Some(cfi(12, 18, 18)));
    assert_eq!(table.get_index(freq(11)), Some(1));
}

#[test]
fn add_frequency_beyond_the_limit_changes_nothing() {
    let mut table = MutableFrequencyTable::new(&freqs(&[1, 0x7fff_fff0])).unwrap();
    table.add_frequency(0, freq(15));
    assert_eq!(*table.get_total(), 0x7fff_fff1);
    assert_eq!(table.get_cfi(0), Some(cfi(0, 1, 0x7fff_fff1)));

    table.add_frequency(0, freq(14));
    assert_eq!(table.get_total(), Frequency::max());
    assert_eq!(table.get_cfi(0), Some(cfi(0, 15, 0x7fff_ffff)));

    table.add_frequency(1, freq(1));
    assert_eq!(table.get_total(), Frequency::max());
    assert_eq!(table.get_cfi(1), Some(cfi(15, 0x7fff_ffff, 0x7fff_ffff)));
}

#[test]
fn add_frequency_outside_the_table_changes_nothing() {
    let mut table = MutableFrequencyTable::new(&freqs(&[1, 2])).unwrap();
    table.add_frequency(2, freq(5));
    table.add_frequency(usize::MAX, freq(5));
    assert_eq!(*table.get_total(), 3);
    assert_eq!(table.get_cfi(1), Some(cfi(1, 3, 3)));
}

#[test]
fn lsb_is_the_lowest_set_bit() {
    assert_eq!(lsb(0), 0);
    assert_eq!(lsb(1), 1);
    assert_eq!(lsb(6), 2);
    assert_eq!(lsb(8), 8);
    assert_eq!(lsb(0b1011_0000), 0b1_0000);
    assert_eq!(lsb(usize::MAX), 1);
}

#[test]
fn fenwick_sums_every_prefix() {
    let values: Vec<u64> = (0..100).map(|i| (i * 37 + 11) % 50).collect();
    let tree = FenwickTree::from(&values);
    assert_eq!(tree.len(), 100);
    let mut sum = 0;
    for index in 0..=100 {
        assert_eq!(tree.get_sum(index), sum);
        if index < 100 {
            sum += values[index];
        }
    }
    // Beyond the tree there is nothing:
    assert_eq!(tree.get_sum(101), 0);
}

#[test]
fn fenwick_built_at_once_is_fenwick_built_by_adding() {
    let values: Vec<u64> = (0..37).map(|i| (i * i) % 23).collect();
    let built = FenwickTree::from(&values);
    let mut added = FenwickTree::new(values.len());
    for (index, value) in values.iter().enumerate() {
        added.add(index, *value);
    }
    for index in 0..=37 {
        assert_eq!(built.get_sum(index), added.get_sum(index));
    }
}

#[test]
fn fenwick_add_outside_the_tree_changes_nothing() {
    let mut tree = FenwickTree::from(&[1, 2, 3]);
    tree.add(3, 10);
    tree.add(usize::MAX, 10);
    assert_eq!(tree.get_sum(3), 6);
}
