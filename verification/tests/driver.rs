use mongo_demo::config::demo_config;
use mongo_demo::config::ClientError;
use mongo_demo::driver;

#[test]
fn demo_config_holds_the_fixed_values() {
    let config = demo_config();
    assert_eq!(config.host.as_str(), "localhost:27017");
    assert_eq!(config.username.as_str(), "mongoadmin");
    assert_eq!(config.password.as_str(), "secret");
    assert_eq!(config.app_name.as_str(), "My App");
}

#[test]
fn demo_address_parses() {
    let config = demo_config();
    let address = driver::parse_server_address(config.host.as_str());
    assert!(address.is_ok());
}

#[test]
fn unparsable_port_is_an_invalid_address() {
    match driver::parse_server_address("localhost:notaport") {
        Err(e) => assert_eq!(e.message().as_str(), "invalid server address"),
        Ok(_) => panic!("an unparsable port must be rejected"),
    }
}

#[test]
fn empty_hostname_is_an_invalid_address() {
    match driver::parse_server_address(":27017") {
        Err(e) => assert!(e == ClientError::InvalidAddress),
        Ok(_) => panic!("an empty hostname must be rejected"),
    }
}

#[test]
fn zero_port_is_an_invalid_address() {
    match driver::parse_server_address("localhost:0") {
        Err(e) => assert!(e == ClientError::InvalidAddress),
        Ok(_) => panic!("a zero port must be rejected"),
    }
}

#[test]
fn extra_colon_is_an_invalid_address() {
    match driver::parse_server_address("localhost:27017:27018") {
        Err(e) => assert!(e == ClientError::InvalidAddress),
        Ok(_) => panic!("a second colon must be rejected"),
    }
}

#[test]
fn create_database_checks_the_listing() {
    // Constructing a client spawns the driver's monitoring tasks, so even
    // the lazy handle needs a reactor; no connection is made.
    tokio_test::block_on(async {
        let address = driver::parse_server_address("localhost:27017").expect("a valid address");
        let options = mongodb::options::ClientOptions::builder()
            .hosts(vec![address])
            .build();
        let client = mongodb::Client::with_options(options).expect("a lazy client handle");
        let names = vec!["admin".to_string(), "config".to_string(), "local".to_string()];
        let db = driver::create_database(&client, &names, "rarara");
        assert!(db.is_some());
        assert_eq!(db.unwrap().name(), "rarara");
        let absent = driver::create_database(&client, &names, "admin");
        assert!(absent.is_none());
    });
}

#[test]
fn error_messages_name_the_stage() {
    assert_eq!(
        ClientError::InvalidAddress.message().as_str(),
        "invalid server address"
    );
    assert_eq!(
        ClientError::Construction.message().as_str(),
        "failed to construct client"
    );
}
