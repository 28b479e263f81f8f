//! The agent's persistent state: where its files live under the data
//! directory, how their contents are read back, the known peers, and the
//! per-node annotations the UI edits.
use vstd::prelude::*;
use vstd::string::*;

use crate::component::{parse_u16, parse_u16_str};
use crate::keyed::StrMap;
use crate::text::{decimal, str_eq, trim, trim_str, u64_to_decimal};

verus! {

/// The agent's own directory under the platform data directory `base`.
pub fn agent_dir_under(base: &str) -> (r: String)
    ensures
        r@ == base@ + "/realm-agent"@,
{
    String::from_str(base).concat("/realm-agent")
}

/// `dir/name`.
pub open spec fn in_dir(dir: Seq<char>, name: Seq<char>) -> Seq<char> {
    dir + "/"@ + name
}

fn join(dir: &str, name: &str) -> (r: String)
    ensures
        r@ == in_dir(dir@, name@),
{
    String::from_str(dir).concat("/").concat(name)
}

/// The trusted owner's public key file.
pub fn trusted_owner_path(data_dir: &str) -> (r: String)
    ensures
        r@ == in_dir(data_dir@, "owner.pub"@),
{
    join(data_dir, "owner.pub")
}

/// The state file.
pub fn state_path(data_dir: &str) -> (r: String)
    ensures
        r@ == in_dir(data_dir@, "state.json"@),
{
    join(data_dir, "state.json")
}

/// The desired manifest file.
pub fn desired_manifest_path(data_dir: &str) -> (r: String)
    ensures
        r@ == in_dir(data_dir@, "desired_manifest.toml"@),
{
    join(data_dir, "desired_manifest.toml")
}

/// The bootstrap peers file.
pub fn bootstrap_path(data_dir: &str) -> (r: String)
    ensures
        r@ == in_dir(data_dir@, "bootstrap.json"@),
{
    join(data_dir, "bootstrap.json")
}

/// The UDP listen port file.
pub fn listen_port_path(data_dir: &str) -> (r: String)
    ensures
        r@ == in_dir(data_dir@, "listen_port"@),
{
    join(data_dir, "listen_port")
}

/// The TCP listen port file.
pub fn listen_port_tcp_path(data_dir: &str) -> (r: String)
    ensures
        r@ == in_dir(data_dir@, "listen_port_tcp"@),
{
    join(data_dir, "listen_port_tcp")
}

/// The known peers file.
pub fn peers_path(data_dir: &str) -> (r: String)
    ensures
        r@ == in_dir(data_dir@, "peers.json"@),
{
    join(data_dir, "peers.json")
}

/// The trusted owner key in the owner file's text: the text trimmed, if
/// anything is left.
pub fn trusted_owner_from_text(text: &str) -> (r: Option<String>)
    ensures
        match r {
            Some(k) => k@ == trim(text@) && k@.len() > 0,
            None => trim(text@).len() == 0,
        },
{
    let t = trim_str(text);
    if t.unicode_len() == 0 {
        None
    } else {
        Some(String::from_str(t))
    }
}

/// A listen port in a port file's text: the trimmed text read as a port.
pub fn listen_port_from_text(text: &str) -> (r: Option<u16>)
    ensures
        r == parse_u16(trim(text@)),
{
    parse_u16_str(trim_str(text))
}

/// The text a port file holds: the port in decimal.
pub fn listen_port_text(port: u16) -> (r: String)
    ensures
        r@ == decimal(port as nat),
{
    u64_to_decimal(port as u64)
}

/// Remember peer address `addr` unless it is known already; tells whether
/// the list changed (and so has to be saved).
pub fn add_known_peer(peers: &mut Vec<String>, addr: &str) -> (changed: bool)
    ensures
        changed == !old(peers).deep_view().contains(addr@),
        changed ==> final(peers).deep_view() == old(peers).deep_view().push(addr@),
        !changed ==> *final(peers) == *old(peers),
{
    let mut i: usize = 0;
    while i < peers.len()
        invariant
            i <= peers@.len(),
            forall|k: int| 0 <= k < i ==> peers@[k]@ != addr@,
        decreases peers.len() - i,
    {
        if str_eq(peers[i].as_str(), addr) {
            proof {
                assert(peers.deep_view()[i as int] == addr@);
            }
            return false;
        }
        i = i + 1;
    }
    proof {
        assert forall|k: int| 0 <= k < peers@.len() implies peers.deep_view()[k] != addr@ by {
            assert(peers.deep_view()[k] == peers@[k]@);
        }
    }
    let ghost before = peers.deep_view();
    peers.push(String::from_str(addr));
    assert(peers.deep_view() =~= before.push(addr@));
    true
}

/// Aliases and notes the operator attached to a node.
pub struct NodeAnnotation {
    pub alias: Option<String>,
    pub notes: Option<String>,
}

/// What the agent keeps across restarts.
pub struct AgentState {
    pub manifest_version: u64,
    pub agent_version: u64,
    pub previous_agent_version: u64,
    pub node_annotations: StrMap<NodeAnnotation>,
}

impl AgentState {
    /// The state of a fresh agent: versions 0, no annotations.
    pub fn new() -> (r: AgentState)
        ensures
            r.manifest_version == 0,
            r.agent_version == 0,
            r.previous_agent_version == 0,
            r.node_annotations.wf(),
            r.node_annotations.keys@.len() == 0,
    {
        AgentState {
            manifest_version: 0,
            agent_version: 0,
            previous_agent_version: 0,
            node_annotations: StrMap::new(),
        }
    }

    /// Update the annotation of `node_id`: the alias and the notes are set
    /// when given and kept otherwise; a node without an annotation gets one.
    pub fn annotate_node(&mut self, node_id: &str, alias: Option<String>, notes: Option<String>)
        requires
            old(self).node_annotations.wf(),
        ensures
            final(self).node_annotations.wf(),
            final(self).manifest_version == old(self).manifest_version,
            final(self).agent_version == old(self).agent_version,
            final(self).previous_agent_version == old(self).previous_agent_version,
            ({
                let prev = match old(self).node_annotations.lookup(node_id@) {
                    Some(a) => a,
                    None => NodeAnnotation { alias: None, notes: None },
                };
                old(self).node_annotations.inserted(
                    node_id@,
                    NodeAnnotation {
                        alias: if alias is Some { alias } else { prev.alias },
                        notes: if notes is Some { notes } else { prev.notes },
                    },
                    final(self).node_annotations,
                )
            }),
    {
        let (old_alias, old_notes) = match self.node_annotations.get(node_id) {
            Some(a) => (
                match &a.alias {
                    Some(s) => Some(s.clone()),
                    None => None,
                },
                match &a.notes {
                    Some(s) => Some(s.clone()),
                    None => None,
                },
            ),
            None => (None, None),
        };
        let entry = NodeAnnotation {
            alias: match alias {
                Some(a) => Some(a),
                None => old_alias,
            },
            notes: match notes {
                Some(n) => Some(n),
                None => old_notes,
            },
        };
        self.node_annotations.insert(String::from_str(node_id), entry);
    }

    /// Record an accepted upgrade to agent `version`: the running version
    /// becomes the previous one. Gives the previous version.
    pub fn record_upgrade(&mut self, version: u64) -> (previous: u64)
        ensures
            previous == old(self).agent_version,
            final(self).agent_version == version,
            final(self).previous_agent_version == old(self).agent_version,
            final(self).manifest_version == old(self).manifest_version,
            final(self).node_annotations == old(self).node_annotations,
    {
        let previous = self.agent_version;
        self.previous_agent_version = previous;
        self.agent_version = version;
        previous
    }

    /// Go back to agent version `previous` after the new binary could not be
    /// started.
    pub fn roll_back_upgrade(&mut self, previous: u64)
        ensures
            final(self).agent_version == previous,
            final(self).previous_agent_version == old(self).previous_agent_version,
            final(self).manifest_version == old(self).manifest_version,
            final(self).node_annotations == old(self).node_annotations,
    {
        self.agent_version = previous;
    }

    /// The alias of `node_id`, if it has one.
    pub fn alias_of(&self, node_id: &str) -> (r: Option<String>)
        requires
            self.node_annotations.wf(),
        ensures
            r == (match self.node_annotations.lookup(node_id@) {
                Some(a) => a.alias,
                None => None,
            }),
    {
        match self.node_annotations.get(node_id) {
            Some(a) => match &a.alias {
                Some(s) => Some(s.clone()),
                None => None,
            },
            None => None,
        }
    }
}

} // verus!
