use art::errors::ArtError;
use art::options::{DeviceId, Options};
use art::table::{key2, key3, Table};
use art::unit::UnitBehavior;
use art::unit_factory::UnitFactory;
use art::util::modulo;

#[test]
fn modulo_is_the_least_non_negative_residue() {
    assert_eq!(modulo(7, 3), 1);
    assert_eq!(modulo(-7, 3), 2);
    assert_eq!(modulo(-6, 3), 0);
    assert_eq!(modulo(0, 5), 0);
    assert_eq!(modulo(-1, 1_000_000), 999_999);
}

#[test]
fn factory_registers_the_builtin_unit_types() {
    let factory = UnitFactory::new();
    assert_eq!(factory.len(), 15);
    assert!(factory.is_registered(0));
    assert!(factory.is_registered(14));
    assert!(!factory.is_registered(15));
    let sine = factory.get_definition(0).unwrap();
    assert_eq!(sine.name, "sine_ar");
    assert_eq!(sine.behavior, UnitBehavior::External);
    assert_eq!(sine.num_params, 2);
    let converter = factory.get_definition(14).unwrap();
    assert_eq!(converter.name, "kr_to_ar");
    assert_eq!(converter.behavior, UnitBehavior::KrToAr);
    assert!(factory.get_definition(15).is_none());
}

#[test]
fn table_stores_and_evicts_by_key() {
    let mut table: Table<u32> = Table::with_capacity(2);
    table.insert(key2(1, 2), 10).unwrap();
    table.insert(key3(1, 2, 3), 20).unwrap();
    assert_eq!(table.get(key2(1, 2)), Some(10));
    assert_eq!(table.get(key3(1, 2, 3)), Some(20));
    // Replacing needs no free slot; a fresh key fails closed.
    table.insert(key2(1, 2), 11).unwrap();
    assert_eq!(table.insert(key2(9, 9), 0), Err(ArtError::BufferOverflow));
    assert_eq!(table.remove(key2(1, 2)), Some(11));
    assert_eq!(table.get(key2(1, 2)), None);
    assert_eq!(table.len(), 1);
}

#[test]
fn options_defaults_match_a_small_stereo_stream() {
    let options = Options::default();
    assert_eq!(options.input_channels, 2);
    assert_eq!(options.output_channels, 2);
    assert_eq!(options.block_size, 64);
    assert_eq!(options.sample_rate, 44100);
    assert_eq!(options.input_device, DeviceId::Default);
    assert_eq!(DeviceId::from_option(Some(3)), DeviceId::Id(3));
    assert_eq!(DeviceId::from_option(None), DeviceId::Default);
}
