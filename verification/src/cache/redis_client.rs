//! Building the Redis client from the configured URL.
use crate::config::RedisConfig;
use vstd::prelude::*;

verus! {

#[verifier::external_type_specification]
#[verifier::external_body]
pub struct ExRedisClient(redis::Client);

#[verifier::external_type_specification]
#[verifier::external_body]
pub struct ExRedisError(redis::RedisError);

/// Whether `redis::Client::open` accepts `url`: it parses the URL (scheme, host,
/// port, database, options) and fails when it does not parse.
pub uninterp spec fn redis_url_accepted(url: Seq<char>) -> bool;

/// A Redis client, with the URL it was built from.
pub struct RedisClient {
    client: redis::Client,
    url: Ghost<Seq<char>>,
}

impl RedisClient {
    /// The URL the client was built from; its connection settings are those parsed
    /// from this URL.
    pub closed spec fn spec_url(&self) -> Seq<char> {
        self.url@
    }

    /// The client itself, for connecting.
    pub fn client(&self) -> &redis::Client {
        &self.client
    }
}

/// Calls `redis::Client::open` on a URL string. That function only parses the URL
/// into the client's connection settings and opens no connection, so whether it
/// succeeds depends on the URL alone (which URLs it accepts is left to the name
/// `redis_url_accepted`), and the client it gives is the one for that URL. How the
/// URL's parts become settings is not stated.
#[verifier::external_body]
fn open_client(url: String) -> (r: Result<RedisClient, redis::RedisError>)
    ensures
        r is Ok <==> redis_url_accepted(url@),
        r matches Ok(c) ==> c.spec_url() == url@,
{
    let view = Ghost(url@);
    match redis::Client::open(url) {
        Ok(client) => Ok(RedisClient { client, url: view }),
        Err(e) => Err(e),
    }
}

/// Why the Redis cache cannot be set up.
#[derive(Debug)]
pub enum RedisSetupError {
    /// The configured URL does not parse; the client's error says why.
    InvalidUrl(redis::RedisError),
}

/// Builds the Redis client for the configured URL, without connecting.
///
/// It fails exactly when the URL is not one that the client accepts.
pub fn open_redis_client(config: &RedisConfig) -> (r: Result<RedisClient, RedisSetupError>)
    ensures
        r is Ok <==> redis_url_accepted(config.url@),
        r matches Ok(c) ==> c.spec_url() == config.url@,
{
    match open_client(config.url.clone()) {
        Ok(client) => Ok(client),
        Err(e) => Err(RedisSetupError::InvalidUrl(e)),
    }
}

} // verus!
