//! The state and configuration of a k3s cluster setup: the servers, the
//! setups in progress, and the secret that nodes join with.

use vstd::prelude::*;

use rand::distributions::DistString;

use crate::text::{has_prefix, starts_with};

verus! {

#[verifier::external_type_specification]
#[verifier::external_body]
pub struct ExThreadRng(rand::rngs::ThreadRng);

/// `rand::thread_rng`: the generator of this thread, seeded by the system.
#[verifier::external_body]
fn thread_rng() -> rand::rngs::ThreadRng {
    rand::thread_rng()
}

/// An ASCII letter or digit.
pub open spec fn is_alphanumeric(c: char) -> bool {
    ||| ('a' <= c && c <= 'z')
    ||| ('A' <= c && c <= 'Z')
    ||| ('0' <= c && c <= '9')
}

/// `Alphanumeric.sample_string` of `rand`: `len` characters drawn from the
/// ASCII letters and digits. Which characters come out is chance; only their
/// number and kind are stated.
#[verifier::external_body]
fn alphanumeric_string(rng: &mut rand::rngs::ThreadRng, len: usize) -> (s: String)
    ensures
        s@.len() == len,
        forall|i: int| 0 <= i < s@.len() ==> is_alphanumeric(#[trigger] s@[i]),
{
    rand::distributions::Alphanumeric.sample_string(rng, len)
}

/// What a server of the cluster does.
#[derive(Debug, Clone, Copy, PartialEq, Eq, Structural)]
pub enum Role {
    K3SServer,
    K3SAgent,
    NFS,
}

/// The processor architecture of a server.
#[derive(Debug, Clone, Copy, PartialEq, Eq, Structural)]
pub enum Architecture {
    Arm,
    Arm64,
    Amd64,
}

/// An IPv4 or IPv6 address, by its parts.
#[derive(Debug, Clone, Copy, PartialEq, Eq, Structural)]
pub enum IpAddress {
    V4(u8, u8, u8, u8),
    V6(u16, u16, u16, u16, u16, u16, u16, u16),
}

#[derive(Debug, Clone, Copy, PartialEq, Eq, Structural)]
pub struct Server {
    pub ip: IpAddress,
    pub role: Role,
    pub architecture: Architecture,
}

/// A setup in progress: the machine and the step it got to.
#[derive(Debug, Clone, Copy, PartialEq, Eq, Structural)]
pub struct Setup {
    pub step: u8,
    pub ip: IpAddress,
}

/// The state of the cluster.
#[derive(Debug)]
pub struct State {
    pub node_token_secret: String,
    pub node_token: Option<String>,
    pub ssh_pub_key: String,
    pub ip_offset: u32,
    pub ip_gateway: IpAddress,
    pub servers: Vec<Server>,
    /// The setups in progress, by the address of their machine.
    pub setup: Vec<(IpAddress, Setup)>,
}

/// Why a state cannot be created.
#[derive(Debug)]
pub enum InitError {
    /// The key is no OpenSSH public key.
    InvalidPublicKey,
}

/// A key in the OpenSSH public key format begins with `ssh-` or `ecdsa-`.
pub open spec fn is_public_key(key: Seq<char>) -> bool {
    has_prefix(key, "ssh-"@) || has_prefix(key, "ecdsa-"@)
}

/// The position of the first setup for `ip`, if any.
pub open spec fn first_setup_for(setup: Seq<(IpAddress, Setup)>, ip: IpAddress) -> Option<nat>
    decreases setup.len(),
{
    if setup.len() == 0 {
        None
    } else {
        match first_setup_for(setup.drop_last(), ip) {
            Some(i) => Some(i),
            None => if setup.last().0 == ip {
                Some((setup.len() - 1) as nat)
            } else {
                None
            },
        }
    }
}

proof fn lemma_first_setup_for(setup: Seq<(IpAddress, Setup)>, ip: IpAddress, i: int)
    requires
        0 <= i <= setup.len(),
        forall|j: int| 0 <= j < i ==> setup[j].0 != ip,
        i < setup.len() ==> setup[i].0 == ip,
    ensures
        i < setup.len() ==> first_setup_for(setup, ip) == Some(i as nat),
        i == setup.len() ==> first_setup_for(setup, ip) is None,
    decreases setup.len(),
{
    if setup.len() > 0 {
        let d = setup.drop_last();
        if i < setup.len() - 1 {
            lemma_first_setup_for(d, ip, i);
        } else {
            lemma_first_setup_for(d, ip, d.len() as int);
        }
    }
}

/// No two setups are for the same machine: the setups are keyed by address.
pub open spec fn setups_keyed(setup: Seq<(IpAddress, Setup)>) -> bool {
    forall|i: int, j: int| 0 <= i < j < setup.len() ==> #[trigger] setup[i].0 != #[trigger] setup[j].0
}

/// Whether no two setups are for the same machine; see [`setups_keyed`].
pub fn setups_are_keyed(setup: &Vec<(IpAddress, Setup)>) -> (b: bool)
    ensures
        b == setups_keyed(setup@),
{
    let n = setup.len();
    let mut j: usize = 0;
    while j < n
        invariant
            n == setup@.len(),
            j <= n,
            forall|a: int, b: int| 0 <= a < b < j ==> #[trigger] setup@[a].0 != #[trigger] setup@[b].0,
        decreases n - j,
    {
        let mut i: usize = 0;
        while i < j
            invariant
                n == setup@.len(),
                i <= j < n,
                forall|a: int, b: int| 0 <= a < b < j ==> #[trigger] setup@[a].0 != #[trigger] setup@[b].0,
                forall|a: int| 0 <= a < i ==> #[trigger] setup@[a].0 != setup@[j as int].0,
            decreases j - i,
        {
            if setup[i].0 == setup[j].0 {
                return false;
            }
            i = i + 1;
        }
        j = j + 1;
    }
    true
}

/// In setups keyed by address, the setup found for `ip` is the one stored
/// for it, and none is found only where none is stored.
pub proof fn keyed_setup_found(setup: Seq<(IpAddress, Setup)>, ip: IpAddress, k: int)
    requires
        setups_keyed(setup),
        0 <= k < setup.len(),
        setup[k].0 == ip,
    ensures
        first_setup_for(setup, ip) == Some(k as nat),
{
    lemma_first_setup_for(setup, ip, k);
}

/// Whether `ssh_pub_key` is in the OpenSSH public key format.
pub fn is_valid_public_key(ssh_pub_key: &str) -> (b: bool)
    ensures
        b == is_public_key(ssh_pub_key@),
{
    starts_with(ssh_pub_key, "ssh-") || starts_with(ssh_pub_key, "ecdsa-")
}

impl State {
    /// The state a cluster starts with: no node token, a fresh secret of 40
    /// random letters and digits, the given public key, address offset 100,
    /// gateway 192.168.2.254, no servers and no setups. A key that is not in
    /// the OpenSSH public key format is refused.
    pub fn initial(ssh_pub_key: String) -> (r: Result<State, InitError>)
        ensures
            !is_public_key(ssh_pub_key@) <==> r matches Err(InitError::InvalidPublicKey),
            r matches Ok(s) ==> {
                &&& s.node_token is None
                &&& s.node_token_secret@.len() == 40
                &&& forall|i: int|
                    0 <= i < 40 ==> is_alphanumeric(#[trigger] s.node_token_secret@[i])
                &&& s.ssh_pub_key@ == ssh_pub_key@
                &&& s.ip_offset == 100
                &&& s.ip_gateway == IpAddress::V4(192, 168, 2, 254)
                &&& s.servers@.len() == 0
                &&& s.setup@.len() == 0
                &&& setups_keyed(s.setup@)
            },
    {
        if !is_valid_public_key(ssh_pub_key.as_str()) {
            return Err(InitError::InvalidPublicKey);
        }
        let mut rng = thread_rng();
        let node_token_secret = alphanumeric_string(&mut rng, 40);
        Ok(
            State {
                node_token: None,
                node_token_secret,
                ssh_pub_key,
                ip_offset: 100,
                ip_gateway: IpAddress::V4(192, 168, 2, 254),
                servers: Vec::new(),
                setup: Vec::new(),
            },
        )
    }

    /// A state read back from its file. Setups are kept by the address of
    /// their machine, so a list that holds two setups for one address is
    /// refused (`None`).
    pub fn loaded(
        node_token_secret: String,
        node_token: Option<String>,
        ssh_pub_key: String,
        ip_offset: u32,
        ip_gateway: IpAddress,
        servers: Vec<Server>,
        setup: Vec<(IpAddress, Setup)>,
    ) -> (r: Option<State>)
        ensures
            r is Some <==> setups_keyed(setup@),
            r matches Some(s) ==> {
                &&& s.node_token_secret == node_token_secret
                &&& s.node_token == node_token
                &&& s.ssh_pub_key == ssh_pub_key
                &&& s.ip_offset == ip_offset
                &&& s.ip_gateway == ip_gateway
                &&& s.servers == servers
                &&& s.setup == setup
            },
    {
        if !setups_are_keyed(&setup) {
            return None;
        }
        Some(State { node_token_secret, node_token, ssh_pub_key, ip_offset, ip_gateway, servers, setup })
    }

    pub fn get_pub_ssh_key(&self) -> (k: &String)
        ensures
            k@ == self.ssh_pub_key@,
    {
        &self.ssh_pub_key
    }

    /// The setup in progress on the machine at `ip`.
    pub fn find_setup(&self, ip: &IpAddress) -> (s: Option<&Setup>)
        ensures
            s is None <==> first_setup_for(self.setup@, *ip) is None,
            s matches Some(x) ==> *x == self.setup@[first_setup_for(self.setup@, *ip)->Some_0 as int].1,
    {
        let n = self.setup.len();
        let mut i: usize = 0;
        while i < n
            invariant
                n == self.setup@.len(),
                i <= n,
                forall|j: int| 0 <= j < i ==> self.setup@[j].0 != *ip,
            decreases n - i,
        {
            if self.setup[i].0 == *ip {
                proof {
                    lemma_first_setup_for(self.setup@, *ip, i as int);
                }
                return Some(&self.setup[i].1);
            }
            i = i + 1;
        }
        proof {
            lemma_first_setup_for(self.setup@, *ip, n as int);
        }
        None
    }

    /// Consumes the state; the setup is not taken out of anything.
    pub fn remove_setup(self, setup: Setup) {
    }
}

/// The configuration of the cluster tool.
#[derive(Debug)]
pub struct Config {
    pub ssh_key_path: Option<String>,
}

/// How `Debug` shows `Some` of the path `path`.
pub uninterp spec fn path_option_debug(path: Seq<char>) -> Seq<char>;

/// `format!("{:?}", Some(PathBuf::from(path)))`: the `Debug` text of an
/// optional path, as [`path_option_debug`] names it.
#[verifier::external_body]
fn debug_path_option(path: &str) -> (s: String)
    ensures
        s@ == path_option_debug(path@),
{
    format!("{:?}", Some(std::path::PathBuf::from(path)))
}

/// A configuration is valid unless it names an SSH key file that does not
/// exist; whether it exists is `ssh_key_exists`.
pub fn validate_config(config: &Config, ssh_key_exists: bool) -> (r: Result<(), String>)
    ensures
        match config.ssh_key_path {
            Some(p) if !ssh_key_exists => r matches Err(m) && m@ == "ssh_key_path ("@
                + path_option_debug(p@) + ") does not exist"@,
            _ => r is Ok,
        },
{
    match &config.ssh_key_path {
        Some(p) => {
            if !ssh_key_exists {
                let mut m = String::from_str("ssh_key_path (");
                let d = debug_path_option(p.as_str());
                m.append(d.as_str());
                m.append(") does not exist");
                return Err(m);
            }
            Ok(())
        },
        None => Ok(()),
    }
}

} // verus!
