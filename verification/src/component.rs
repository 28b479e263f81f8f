//! Component specifications as the deploy forms give them: volume mounts,
//! service ports and visibility, read from their text form.
use vstd::prelude::*;
use vstd::string::*;

use crate::text::{
    ascii_lower, ascii_lowercase, eq_ignore_ascii_case, parse_u64, parse_u64_str, split_all,
    split_char, split_once, split_once_char, str_eq, trim, trim_str,
};

verus! {

/// A host directory made visible to a component.
pub struct MountSpec {
    pub host: String,
    pub guest: String,
    pub ro: bool,
}

/// Transport of a service port.
#[derive(Debug, Clone, Copy, PartialEq, Eq, Structural)]
pub enum Protocol {
    Tcp,
    Udp,
}

/// A port a component serves on.
pub struct ServicePort {
    pub name: Option<String>,
    pub port: u16,
    pub protocol: Protocol,
}

/// Who may reach a component's ports.
#[derive(Debug, Clone, Copy, PartialEq, Eq, Structural)]
pub enum Visibility {
    Local,
    Public,
}

pub struct MountView {
    pub host: Seq<char>,
    pub guest: Seq<char>,
    pub ro: bool,
}

impl View for MountSpec {
    type V = MountView;

    open spec fn view(&self) -> MountView {
        MountView { host: self.host@, guest: self.guest@, ro: self.ro }
    }
}

pub struct PortView {
    pub name: Option<Seq<char>>,
    pub port: u16,
    pub protocol: Protocol,
}

impl View for ServicePort {
    type V = PortView;

    open spec fn view(&self) -> PortView {
        PortView {
            name: match self.name {
                Some(n) => Some(n@),
                None => None,
            },
            port: self.port,
            protocol: self.protocol,
        }
    }
}

/// `str::parse::<u16>`.
pub open spec fn parse_u16(s: Seq<char>) -> Option<u16> {
    match parse_u64(s) {
        Some(v) => if v <= 65535 {
            Some(v as u16)
        } else {
            None
        },
        None => None,
    }
}

pub fn parse_u16_str(s: &str) -> (r: Option<u16>)
    ensures
        r == parse_u16(s@),
{
    match parse_u64_str(s) {
        Some(v) => if v <= 65535 {
            Some(v as u16)
        } else {
            None
        },
        None => None,
    }
}

/// Key and value of one `key=value` part of a mount entry, both trimmed; a
/// part without `=` is all key.
pub open spec fn mount_kv(part: Seq<char>) -> (Seq<char>, Seq<char>) {
    match split_once(part, '=') {
        Some((k, v)) => (trim(k), trim(v)),
        None => (trim(part), Seq::empty()),
    }
}

/// The values `ro=` reads as true (compared in ASCII lower case).
pub open spec fn ro_true(value: Seq<char>) -> bool {
    let v = ascii_lower(value);
    v == "1"@ || v == "true"@ || v == "yes"@ || v == "on"@
}

/// What the parts of one mount entry have set so far.
pub struct MountAcc {
    pub host: Option<Seq<char>>,
    pub guest: Option<Seq<char>>,
    pub ro: bool,
}

/// Read the `key=value` parts of mount entry `entry` in order: `host`,
/// `guest` and `ro` set their field (the last one wins), an empty key is
/// skipped, any other key is an error.
pub open spec fn mount_parts(parts: Seq<Seq<char>>, entry: Seq<char>, acc: MountAcc) -> Result<
    MountAcc,
    Seq<char>,
>
    decreases parts.len(),
{
    if parts.len() == 0 {
        Ok(acc)
    } else {
        let (key, value) = mount_kv(parts[0]);
        let rest = parts.drop_first();
        if key == "host"@ {
            mount_parts(rest, entry, MountAcc { host: Some(value), ..acc })
        } else if key == "guest"@ {
            mount_parts(rest, entry, MountAcc { guest: Some(value), ..acc })
        } else if key == "ro"@ {
            mount_parts(rest, entry, MountAcc { ro: ro_true(value), ..acc })
        } else if key.len() == 0 {
            mount_parts(rest, entry, acc)
        } else {
            Err("invalid mount key '"@ + key + "' in '"@ + entry + "'"@)
        }
    }
}

/// The start of reading a mount entry: nothing set, read-write.
pub open spec fn mount_start() -> MountAcc {
    MountAcc { host: None, guest: None, ro: false }
}

/// A mount from what the parts of `entry` set: host and guest are required.
pub open spec fn mount_finish(r: Result<MountAcc, Seq<char>>, entry: Seq<char>) -> Result<
    MountView,
    Seq<char>,
> {
    match r {
        Ok(acc) => if acc.host is Some && acc.guest is Some {
            Ok(MountView { host: acc.host->0, guest: acc.guest->0, ro: acc.ro })
        } else {
            Err("mount entry '"@ + entry + "' must include host= and guest="@)
        },
        Err(m) => Err(m),
    }
}

/// One mount entry `host=...,guest=...[,ro=...]` read as a mount.
pub open spec fn mount_entry(entry: Seq<char>) -> Result<MountView, Seq<char>> {
    mount_finish(mount_parts(split_all(entry, ','), entry, mount_start()), entry)
}

/// All mount entries read in order; the first error wins.
pub open spec fn mount_entries(entries: Seq<Seq<char>>) -> Result<Seq<MountView>, Seq<char>>
    decreases entries.len(),
{
    if entries.len() == 0 {
        Ok(Seq::empty())
    } else {
        match mount_entry(entries[0]) {
            Err(m) => Err(m),
            Ok(mv) => match mount_entries(entries.drop_first()) {
                Err(m) => Err(m),
                Ok(ms) => Ok(seq![mv] + ms),
            },
        }
    }
}

/// `pre` followed by the mounts of `r`, or the error of `r`.
pub open spec fn after_mounts(pre: Seq<MountView>, r: Result<Seq<MountView>, Seq<char>>) -> Result<
    Seq<MountView>,
    Seq<char>,
> {
    match r {
        Ok(ms) => Ok(pre + ms),
        Err(m) => Err(m),
    }
}

pub open spec fn mounts_view(v: Seq<MountSpec>) -> Seq<MountView> {
    v.map_values(|m: MountSpec| m@)
}

pub open spec fn ports_view(v: Seq<ServicePort>) -> Seq<PortView> {
    v.map_values(|p: ServicePort| p@)
}

fn mount_entry_exec(entry: &str) -> (r: Result<MountSpec, String>)
    ensures
        match r {
            Ok(m) => mount_entry(entry@) == Ok::<MountView, Seq<char>>(m@),
            Err(e) => mount_entry(entry@) == Err::<MountView, Seq<char>>(e@),
        },
{
    let parts = split_char(entry, ',');
    let ghost ps = split_all(entry@, ',');
    let mut host: Option<String> = None;
    let mut guest: Option<String> = None;
    let mut ro = false;
    let mut i: usize = 0;
    proof {
        reveal_strlit("host");
        reveal_strlit("guest");
        reveal_strlit("ro");
        reveal_strlit("1");
        reveal_strlit("true");
        reveal_strlit("yes");
        reveal_strlit("on");
        assert(ps.subrange(0, ps.len() as int) =~= ps);
    }
    while i < parts.len()
        invariant
            ps == split_all(entry@, ','),
            parts@.len() == ps.len(),
            forall|k: int| 0 <= k < parts@.len() ==> #[trigger] parts@[k]@ == ps[k],
            i <= parts@.len(),
            mount_parts(ps, entry@, mount_start()) == mount_parts(
                ps.subrange(i as int, ps.len() as int),
                entry@,
                MountAcc {
                    host: match host {
                        Some(h) => Some(h@),
                        None => None,
                    },
                    guest: match guest {
                        Some(g) => Some(g@),
                        None => None,
                    },
                    ro,
                },
            ),
        decreases parts.len() - i,
    {
        let part = parts[i];
        let ghost rest = ps.subrange(i as int, ps.len() as int);
        proof {
            assert(rest[0] == part@);
            assert(rest.drop_first() =~= ps.subrange(i + 1, ps.len() as int));
        }
        let (key, value) = match split_once_char(part, '=') {
            Some((k, v)) => (trim_str(k), trim_str(v)),
            None => (trim_str(part), ""),
        };
        proof {
            reveal_strlit("");
            assert(mount_kv(part@) == (key@, value@));
        }
        if str_eq(key, "host") {
            host = Some(String::from_str(value));
        } else if str_eq(key, "guest") {
            guest = Some(String::from_str(value));
        } else if str_eq(key, "ro") {
            let v = ascii_lowercase(value);
            ro = str_eq(v.as_str(), "1") || str_eq(v.as_str(), "true") || str_eq(v.as_str(), "yes")
                || str_eq(v.as_str(), "on");
        } else if key.unicode_len() == 0 {
        } else {
            let msg = String::from_str("invalid mount key '").concat(key).concat("' in '").concat(
                entry,
            ).concat("'");
            proof {
                let acc = MountAcc {
                    host: match host {
                        Some(h) => Some(h@),
                        None => None,
                    },
                    guest: match guest {
                        Some(g) => Some(g@),
                        None => None,
                    },
                    ro,
                };
                assert(key@ != "host"@);
                assert(key@ != "guest"@);
                assert(key@ != "ro"@);
                assert(mount_parts(rest, entry@, acc) == Err::<MountAcc, Seq<char>>(msg@));

            }
            return Err(msg);
        }
        i = i + 1;
    }
    proof {
        assert(ps.subrange(ps.len() as int, ps.len() as int) =~= Seq::<Seq<char>>::empty());
    }
    match (host, guest) {
        (Some(h), Some(g)) => Ok(MountSpec { host: h, guest: g, ro }),
        _ => Err(
            String::from_str("mount entry '").concat(entry).concat("' must include host= and guest="),
        ),
    }
}

/// Read the mount entries of a deploy form (`host=...,guest=...,ro=...`,
/// one per entry): none when there are no entries, else every entry as a
/// mount, or the first entry's error.
pub fn parse_mount_entries(entries: &Vec<String>) -> (r: Result<Option<Vec<MountSpec>>, String>)
    ensures
        entries@.len() == 0 ==> r == Ok::<Option<Vec<MountSpec>>, String>(None),
        entries@.len() > 0 ==> match r {
            Ok(Some(v)) => mount_entries(entries.deep_view()) == Ok::<Seq<MountView>, Seq<char>>(
                mounts_view(v@),
            ),
            Ok(None) => false,
            Err(e) => mount_entries(entries.deep_view()) == Err::<Seq<MountView>, Seq<char>>(e@),
        },
{
    if entries.len() == 0 {
        return Ok(None);
    }
    let ghost es = entries.deep_view();
    let mut out: Vec<MountSpec> = Vec::new();
    let mut i: usize = 0;
    assert(es.subrange(0, es.len() as int) =~= es);
    while i < entries.len()
        invariant
            es == entries.deep_view(),
            i <= entries@.len(),
            mount_entries(es) == after_mounts(
                mounts_view(out@),
                mount_entries(es.subrange(i as int, es.len() as int)),
            ),
        decreases entries.len() - i,
    {
        let ghost rest = es.subrange(i as int, es.len() as int);
        proof {
            assert(rest[0] == entries@[i as int]@);
            assert(rest.drop_first() =~= es.subrange(i + 1, es.len() as int));
        }
        match mount_entry_exec(entries[i].as_str()) {
            Ok(m) => {
                let ghost before = mounts_view(out@);
                out.push(m);
                proof {
                    assert(mounts_view(out@) =~= before + seq![m@]);
                    match mount_entries(es.subrange(i + 1, es.len() as int)) {
                        Ok(ms) => {
                            assert(before + (seq![m@] + ms) =~= (before + seq![m@]) + ms);
                        },
                        Err(_) => {},
                    }
                }
            },
            Err(e) => {
                return Err(e);
            },
        }
        i = i + 1;
    }
    proof {
        assert(es.subrange(es.len() as int, es.len() as int) =~= Seq::<Seq<char>>::empty());
        assert(mounts_view(out@) + Seq::<MountView>::empty() =~= mounts_view(out@));
    }
    Ok(Some(out))
}

/// One port entry `port[/protocol]`, trimmed: `None` for a blank entry;
/// otherwise the port number and `udp` (any case) or else TCP.
pub open spec fn port_entry(entry: Seq<char>) -> Result<Option<PortView>, Seq<char>> {
    let t = trim(entry);
    if t.len() == 0 {
        Ok(None)
    } else {
        let parts = split_all(t, '/');
        let port_str = trim(parts[0]);
        let proto_str = if parts.len() > 1 {
            trim(parts[1])
        } else {
            "tcp"@
        };
        if port_str.len() == 0 {
            Err("invalid port '"@ + entry + "'"@)
        } else {
            match parse_u16(port_str) {
                None => Err("invalid port number '"@ + port_str + "'"@),
                Some(p) => Ok(
                    Some(
                        PortView {
                            name: None,
                            port: p,
                            protocol: if ascii_lower(proto_str) == ascii_lower("udp"@) {
                                Protocol::Udp
                            } else {
                                Protocol::Tcp
                            },
                        },
                    ),
                ),
            }
        }
    }
}

/// All port entries read in order, blank ones skipped; the first error wins.
pub open spec fn port_entries(entries: Seq<Seq<char>>) -> Result<Seq<PortView>, Seq<char>>
    decreases entries.len(),
{
    if entries.len() == 0 {
        Ok(Seq::empty())
    } else {
        match port_entry(entries[0]) {
            Err(m) => Err(m),
            Ok(p) => match port_entries(entries.drop_first()) {
                Err(m) => Err(m),
                Ok(ps) => match p {
                    Some(pv) => Ok(seq![pv] + ps),
                    None => Ok(ps),
                },
            },
        }
    }
}

pub open spec fn after_ports(pre: Seq<PortView>, r: Result<Seq<PortView>, Seq<char>>) -> Result<
    Seq<PortView>,
    Seq<char>,
> {
    match r {
        Ok(ps) => Ok(pre + ps),
        Err(m) => Err(m),
    }
}

fn port_entry_exec(entry: &str) -> (r: Result<Option<ServicePort>, String>)
    ensures
        match r {
            Ok(Some(p)) => port_entry(entry@) == Ok::<Option<PortView>, Seq<char>>(Some(p@)),
            Ok(None) => port_entry(entry@) == Ok::<Option<PortView>, Seq<char>>(None),
            Err(e) => port_entry(entry@) == Err::<Option<PortView>, Seq<char>>(e@),
        },
{
    let t = trim_str(entry);
    if t.unicode_len() == 0 {
        return Ok(None);
    }
    let parts = split_char(t, '/');
    let port_str = trim_str(parts[0]);
    let proto_str = if parts.len() > 1 {
        trim_str(parts[1])
    } else {
        "tcp"
    };
    if port_str.unicode_len() == 0 {
        return Err(String::from_str("invalid port '").concat(entry).concat("'"));
    }
    match parse_u16_str(port_str) {
        None => Err(String::from_str("invalid port number '").concat(port_str).concat("'")),
        Some(p) => {
            let protocol = if eq_ignore_ascii_case(proto_str, "udp") {
                Protocol::Udp
            } else {
                Protocol::Tcp
            };
            Ok(Some(ServicePort { name: None, port: p, protocol }))
        },
    }
}

/// Read the port entries of a deploy form (`8080`, `53/udp`, ...): none
/// when there are no entries or all are blank, else the ports in order, or
/// the first entry's error.
pub fn parse_port_entries(entries: &Vec<String>) -> (r: Result<Option<Vec<ServicePort>>, String>)
    ensures
        match r {
            Ok(Some(v)) => v@.len() > 0 && port_entries(entries.deep_view()) == Ok::<
                Seq<PortView>,
                Seq<char>,
            >(ports_view(v@)),
            Ok(None) => port_entries(entries.deep_view()) == Ok::<Seq<PortView>, Seq<char>>(
                Seq::empty(),
            ),
            Err(e) => port_entries(entries.deep_view()) == Err::<Seq<PortView>, Seq<char>>(e@),
        },
{
    let ghost es = entries.deep_view();
    let mut out: Vec<ServicePort> = Vec::new();
    let mut i: usize = 0;
    assert(es.subrange(0, es.len() as int) =~= es);
    while i < entries.len()
        invariant
            es == entries.deep_view(),
            i <= entries@.len(),
            port_entries(es) == after_ports(
                ports_view(out@),
                port_entries(es.subrange(i as int, es.len() as int)),
            ),
        decreases entries.len() - i,
    {
        let ghost rest = es.subrange(i as int, es.len() as int);
        proof {
            assert(rest[0] == entries@[i as int]@);
            assert(rest.drop_first() =~= es.subrange(i + 1, es.len() as int));
        }
        match port_entry_exec(entries[i].as_str()) {
            Ok(Some(p)) => {
                let ghost before = ports_view(out@);
                out.push(p);
                proof {
                    assert(ports_view(out@) =~= before + seq![p@]);
                    match port_entries(es.subrange(i + 1, es.len() as int)) {
                        Ok(ps) => {
                            assert(before + (seq![p@] + ps) =~= (before + seq![p@]) + ps);
                        },
                        Err(_) => {},
                    }
                }
            },
            Ok(None) => {},
            Err(e) => {
                return Err(e);
            },
        }
        i = i + 1;
    }
    proof {
        assert(es.subrange(es.len() as int, es.len() as int) =~= Seq::<Seq<char>>::empty());
        assert(ports_view(out@) + Seq::<PortView>::empty() =~= ports_view(out@));
    }
    if out.len() == 0 {
        proof {
            assert(ports_view(out@) =~= Seq::<PortView>::empty());
        }
        Ok(None)
    } else {
        Ok(Some(out))
    }
}

/// The visibility field of a deploy form: absent or blank means none;
/// `local` or `public` in any ASCII case; anything else is an error naming
/// the value in lower case.
pub open spec fn visibility_of(raw: Option<Seq<char>>) -> Result<Option<Visibility>, Seq<char>> {
    match raw {
        None => Ok(None),
        Some(s) => {
            let t = trim(s);
            if t.len() == 0 {
                Ok(None)
            } else {
                let l = ascii_lower(t);
                if l == "local"@ {
                    Ok(Some(Visibility::Local))
                } else if l == "public"@ {
                    Ok(Some(Visibility::Public))
                } else {
                    Err("invalid visibility '"@ + l + "'"@)
                }
            }
        },
    }
}

pub fn parse_visibility(raw: Option<&str>) -> (r: Result<Option<Visibility>, String>)
    ensures
        match r {
            Ok(v) => visibility_of(crate::text::opt_str_view(raw)) == Ok::<
                Option<Visibility>,
                Seq<char>,
            >(v),
            Err(e) => visibility_of(crate::text::opt_str_view(raw)) == Err::<
                Option<Visibility>,
                Seq<char>,
            >(e@),
        },
{
    match raw {
        None => Ok(None),
        Some(s) => {
            let t = trim_str(s);
            if t.unicode_len() == 0 {
                Ok(None)
            } else {
                let l = ascii_lowercase(t);
                if str_eq(l.as_str(), "local") {
                    Ok(Some(Visibility::Local))
                } else if str_eq(l.as_str(), "public") {
                    Ok(Some(Visibility::Public))
                } else {
                    Err(String::from_str("invalid visibility '").concat(l.as_str()).concat("'"))
                }
            }
        },
    }
}

} // verus!
