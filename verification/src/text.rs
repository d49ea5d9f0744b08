//! The texts that the client prints and the directory endpoints it knows.

use vstd::prelude::*;
use vstd::string::StringExecFns;

verus! {

/// The banner that the client shows when it starts.
pub const BANNER: &'static str = r#"

      _ __  _   _ _ __ ___
     | '_ \| | | | '_ \ _ \
     | | | | |_| | | | | | |
     |_| |_|\__, |_| |_| |_|
            |___/

             (client)

    "#;

/// The hint that follows the banner where no command was recognised.
pub const USAGE_HINT: &'static str = "usage: --help to see available options.\n\n";

/// The directory server of a local deployment.
pub const LOCAL_DIRECTORY: &'static str = "http://localhost:8080";

/// The directory server of the public network.
pub const PUBLIC_DIRECTORY: &'static str = "https://directory.nymtech.net";

/// The banner.
pub fn banner() -> (r: String)
    ensures
        r@ == BANNER@,
{
    String::from_str(BANNER)
}

/// The banner, then the hint at `--help`.
pub fn usage() -> (r: String)
    ensures
        r@ == BANNER@ + USAGE_HINT@,
{
    banner().concat(USAGE_HINT)
}

/// The directory server to ask for the topology: the local one for a local
/// deployment, else the public one.
pub fn directory_url(is_local: bool) -> (r: &'static str)
    ensures
        r@ == if is_local {
            LOCAL_DIRECTORY@
        } else {
            PUBLIC_DIRECTORY@
        },
{
    if is_local {
        LOCAL_DIRECTORY
    } else {
        PUBLIC_DIRECTORY
    }
}

} // verus!
