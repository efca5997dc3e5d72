use vstd::prelude::*;
use vstd::string::StringExecFns;

verus! {

/// Which routing service deployment to call.
#[derive(Clone, Copy, PartialEq, Eq, Structural, Debug)]
pub enum Server {
    Default,
    EU,
}

/// The travel profile a route is planned for.
#[derive(Clone, Copy, PartialEq, Eq, Structural, Debug)]
pub enum Profile {
    Auto,
    Pedestrian,
}

impl Default for Server {
    /// The default deployment.
    fn default() -> (r: Self)
        ensures
            r == Server::Default,
    {
        Server::Default
    }
}

impl Server {
    /// The short name of the deployment.
    pub fn label(&self) -> (r: String)
        ensures
            *self == Server::Default ==> r@ == "default"@,
            *self == Server::EU ==> r@ == "eu"@,
    {
        match self {
            Server::Default => String::from_str("default"),
            Server::EU => String::from_str("eu"),
        }
    }

    /// The base URL of the deployment's API endpoint.
    pub fn endpoint_base(&self) -> (r: String)
        ensures
            *self == Server::Default ==> r@ == "https://api.stadiamaps.com"@,
            *self == Server::EU ==> r@ == "https://api-eu.stadiamaps.com"@,
    {
        match self {
            Server::Default => String::from_str("https://api.stadiamaps.com"),
            Server::EU => String::from_str("https://api-eu.stadiamaps.com"),
        }
    }
}

impl Profile {
    /// The name the routing request carries for this profile.
    pub fn label(&self) -> (r: String)
        ensures
            *self == Profile::Auto ==> r@ == "auto"@,
            *self == Profile::Pedestrian ==> r@ == "pedestrian"@,
    {
        match self {
            Profile::Auto => String::from_str("auto"),
            Profile::Pedestrian => String::from_str("pedestrian"),
        }
    }
}

} // verus!
