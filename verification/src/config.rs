//! Server settings, read from the process environment's variables.
use vstd::prelude::*;
use crate::text::{decimal, lemma_decimal_reads_back, parse_u16, parse_u16_spec, push_char, push_decimal, str_eq};

verus! {

/// Which database client implementation serves the requests.
#[derive(Debug, Clone, Copy, PartialEq, Eq, Structural)]
pub enum ClientProfile {
    Reference,
    Workshop,
    WorkshopAnswers,
}

/// The client implementation a profile is served by.
#[derive(Debug, Clone, Copy, PartialEq, Eq, Structural)]
pub enum ClientKind {
    Reference,
    Workshop,
}

/// The profile a name selects; each profile has two names.
pub open spec fn profile_of_name(name: Seq<char>) -> Option<ClientProfile> {
    if name == "reference"@ || name == "old-client"@ {
        Some(ClientProfile::Reference)
    } else if name == "workshop"@ || name == "new-client"@ {
        Some(ClientProfile::Workshop)
    } else if name == "workshop-answers"@ || name == "new-client-answers"@ {
        Some(ClientProfile::WorkshopAnswers)
    } else {
        None
    }
}

impl ClientProfile {
    /// The profile named `name`, if any.
    pub fn from_name(name: &str) -> (r: Option<ClientProfile>)
        ensures
            r == profile_of_name(name@),
    {
        if str_eq(name, "reference") || str_eq(name, "old-client") {
            Some(ClientProfile::Reference)
        } else if str_eq(name, "workshop") || str_eq(name, "new-client") {
            Some(ClientProfile::Workshop)
        } else if str_eq(name, "workshop-answers") || str_eq(name, "new-client-answers") {
            Some(ClientProfile::WorkshopAnswers)
        } else {
            None
        }
    }

    /// The client implementation that serves this profile: the answers
    /// profile is served by the reference client.
    pub fn client_kind(&self) -> (r: ClientKind)
        ensures
            r == (if *self == ClientProfile::Workshop { ClientKind::Workshop } else { ClientKind::Reference }),
    {
        match self {
            ClientProfile::Reference => ClientKind::Reference,
            ClientProfile::Workshop => ClientKind::Workshop,
            ClientProfile::WorkshopAnswers => ClientKind::Reference,
        }
    }
}

#[derive(Debug)]
pub struct Settings {
    pub aerospike_host: String,
    pub aerospike_port: u16,
    pub aerospike_username: Option<String>,
    pub aerospike_password: Option<String>,
    pub aerospike_client_profile: ClientProfile,
    pub server_port: u16,
}

/// A port setting: the variable's value when it reads as a port number, else `default`.
pub open spec fn port_setting(v: Option<&str>, default: u16) -> u16 {
    match v {
        Some(s) => match parse_u16_spec(s@) {
            Some(p) => p,
            None => default,
        },
        None => default,
    }
}

/// The `host:port` address of a database node.
pub open spec fn hosts_spec(host: Seq<char>, port: u16) -> Seq<char> {
    host + seq![':'] + decimal(port as nat)
}

fn port_or(v: Option<&str>, default: u16) -> (r: u16)
    ensures
        r == port_setting(v, default),
{
    match v {
        Some(s) => match parse_u16(s) {
            Some(p) => p,
            None => default,
        },
        None => default,
    }
}

fn opt_string(v: Option<&str>) -> (r: Option<String>)
    ensures
        match v {
            Some(s) => r matches Some(t) && t@ == s@,
            None => r is None,
        },
{
    match v {
        Some(s) => Some(String::from_str(s)),
        None => None,
    }
}

impl Settings {
    /// The settings given the values of the variables `AEROSPIKE_CLIENT_PROFILE`,
    /// `AEROSPIKE_HOST`, `AEROSPIKE_PORT`, `AEROSPIKE_USERNAME`,
    /// `AEROSPIKE_PASSWORD` and `SERVER_PORT` (`None` for one that is not
    /// set). The profile defaults to the reference client, the host to
    /// `localhost`, the ports to 3000 and 8080; an empty user name counts as none.
    pub fn from_vars(
        profile: Option<&str>,
        host: Option<&str>,
        port: Option<&str>,
        username: Option<&str>,
        password: Option<&str>,
        server_port: Option<&str>,
    ) -> (r: Settings)
        requires
            profile matches Some(p) ==> profile_of_name(p@) is Some,
        ensures
            r.aerospike_client_profile == match profile {
                Some(p) => profile_of_name(p@)->Some_0,
                None => ClientProfile::Reference,
            },
            r.aerospike_host@ == match host {
                Some(h) => h@,
                None => "localhost"@,
            },
            r.aerospike_port == port_setting(port, 3000),
            match username {
                Some(u) if u@.len() > 0 => r.aerospike_username matches Some(t) && t@ == u@,
                _ => r.aerospike_username is None,
            },
            match password {
                Some(p) => r.aerospike_password matches Some(t) && t@ == p@,
                None => r.aerospike_password is None,
            },
            r.server_port == port_setting(server_port, 8080),
    {
        let aerospike_client_profile = match profile {
            Some(p) => match ClientProfile::from_name(p) {
                Some(c) => c,
                None => ClientProfile::Reference,
            },
            None => ClientProfile::Reference,
        };
        let aerospike_host = match host {
            Some(h) => String::from_str(h),
            None => String::from_str("localhost"),
        };
        let aerospike_username = match username {
            Some(u) => {
                if u.unicode_len() > 0 {
                    Some(String::from_str(u))
                } else {
                    None
                }
            },
            None => None,
        };
        Settings {
            aerospike_host,
            aerospike_port: port_or(port, 3000),
            aerospike_username,
            aerospike_password: opt_string(password),
            aerospike_client_profile,
            server_port: port_or(server_port, 8080),
        }
    }

    /// The `host:port` address the client connects to.
    pub fn aerospike_hosts(&self) -> (r: String)
        ensures
            r@ == hosts_spec(self.aerospike_host@, self.aerospike_port),
    {
        let mut s = self.aerospike_host.clone();
        push_char(&mut s, ':');
        push_decimal(&mut s, self.aerospike_port as u64);
        s
    }
}

/// The port of a node address reads back as the port it was written with:
/// after the last `:` of `hosts_spec(host, port)` stand the digits of `port`,
/// and they parse as `port`.
pub proof fn lemma_hosts_port_reads_back(host: Seq<char>, port: u16)
    ensures
        ({
            let s = hosts_spec(host, port);
            let d = decimal(port as nat);
            &&& s == host + seq![':'] + d
            &&& forall|i: int| 0 <= i < d.len() ==> #[trigger] d[i] != ':'
            &&& parse_u16_spec(d) == Some(port)
        }),
{
    lemma_decimal_reads_back(port as nat);
    let d = decimal(port as nat);
    assert forall|i: int| 0 <= i < d.len() implies #[trigger] d[i] != ':' by {
        assert(crate::text::is_digit(d[i]));
    }
    assert(d.len() > 0 && d[0] != '+');
}

} // verus!
