use no_proto::buffer::NP_Factory;
use no_proto::error::NP_Error;

#[test]
fn schema_parsing_works() -> Result<(), NP_Error> {
    let schema = "{\"type\":\"bool\",\"default\":false}";
    let factory = NP_Factory::new(schema)?;
    assert_eq!(schema, String::from_utf8(factory.export_schema()).unwrap());

    let schema = "{\"type\":\"bool\"}";
    let factory = NP_Factory::new(schema)?;
    assert_eq!(schema, String::from_utf8(factory.export_schema()).unwrap());

    Ok(())
}

#[test]
fn default_value_works() -> Result<(), NP_Error> {
    let schema = "{\"type\":\"bool\",\"default\":false}";
    let factory = NP_Factory::new(schema)?;
    let buffer = factory.empty_buffer();
    assert_eq!(buffer.get::<bool>(&[])?.unwrap(), false);

    Ok(())
}

#[test]
fn set_clear_value_and_compaction_works() -> Result<(), NP_Error> {
    let schema = "{\"type\":\"bool\"}";
    let factory = NP_Factory::new(schema)?;
    let mut buffer = factory.empty_buffer();
    buffer.set(&[], false)?;
    assert_eq!(buffer.get::<bool>(&[])?.unwrap(), false);
    buffer.del(&[])?;
    assert_eq!(buffer.get::<bool>(&[])?, None);

    buffer.compact()?;
    assert_eq!(buffer.calc_bytes()?.current_buffer, 4usize);

    Ok(())
}
