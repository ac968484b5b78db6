//! Address validation and the check-before-create idiom, over the driver's
//! pure, reactor-free calls.
//!
//! Everything here that touches the `mongodb` crate goes through a trusted
//! wrapper, and only for calls that neither panic nor touch the network:
//! parsing an address string, and forming a lazy database handle. Client
//! construction spawns the driver's monitoring tasks onto a running
//! reactor, and listing database names is a network request; both stand
//! outside this library, which takes a client and a listing as given.

use vstd::prelude::*;

use crate::config::ClientError;
use crate::names::contains_name;
use crate::names::name_present;

verus! {

#[verifier::external_type_specification]
#[verifier::external_body]
pub struct ExClient(mongodb::Client);

#[verifier::external_type_specification]
#[verifier::external_body]
pub struct ExDatabase(mongodb::Database);

#[verifier::external_type_specification]
#[verifier::external_body]
pub struct ExServerAddress(mongodb::options::ServerAddress);

#[verifier::external_type_specification]
#[verifier::external_body]
pub struct ExError(mongodb::error::Error);

/// Whether the driver accepts a string as a server address.
pub uninterp spec fn address_parse_ok(s: Seq<char>) -> bool;

/// Relies on `mongodb::options::ServerAddress::parse`: a pure parse of the
/// address string, deterministic in its characters alone on a fixed target;
/// no I/O and no panic.
#[verifier::external_body]
fn parse_address(address: &str) -> (r: Result<
    mongodb::options::ServerAddress,
    mongodb::error::Error,
>)
    ensures
        r is Ok <==> address_parse_ok(address@),
{
    mongodb::options::ServerAddress::parse(address)
}

/// Relies on `mongodb::Client::database`: produces a lazy handle to the
/// named database; nothing is sent across the wire and nothing is persisted.
#[verifier::external_body]
fn database_handle(client: &mongodb::Client, name: &str) -> (r: mongodb::Database) {
    client.database(name)
}

/// Validates an address string against the driver's own parser: the one
/// part of client construction that neither spawns nor connects. A parsed
/// address comes back exactly when the driver accepts the string, and
/// `InvalidAddress` exactly when it does not.
pub fn parse_server_address(host: &str) -> (r: Result<
    mongodb::options::ServerAddress,
    ClientError,
>)
    ensures
        r is Ok <==> address_parse_ok(host@),
        r matches Err(e) ==> e == ClientError::InvalidAddress,
{
    match parse_address(host) {
        Ok(a) => Ok(a),
        Err(_) => Err(ClientError::InvalidAddress),
    }
}

/// Check-before-create: given the listing a deployment reported, a handle
/// scoped to `name` is produced exactly when the name is absent from that
/// listing. The handle is lazy: producing it persists nothing, so a listing
/// taken before any write still lacks the name.
pub fn create_database(client: &mongodb::Client, names: &Vec<String>, name: &str) -> (r: Option<
    mongodb::Database,
>)
    ensures
        r is Some <==> !name_present(names@, name@),
{
    if !contains_name(names, name) {
        Some(database_handle(client, name))
    } else {
        None
    }
}

} // verus!
