//! How a mount is set up.

use crate::scan::{begins_with, stands_at};
use crate::text::{chars_of, texts};
use vstd::prelude::*;
use vstd::string::*;

verus! {

/// The settings of a mount.
#[derive(Debug)]
pub struct FuseApp {
    pub mount_point: String,
    pub master_addresses: Vec<String>,
    pub collection: String,
    pub replication: String,
    pub master_net_port: u16,
    pub volume_net_port: u16,
    pub volume_addrs: Vec<String>,
    pub filer_addr: String,
    /// All metadata servers, tried in turn.
    pub filer_addrs: Vec<String>,
    pub filer_net_port: u16,
    /// "range" or "inode".
    pub lease_mode: String,
    pub lease_duration_ms: u64,
    pub lease_renew_interval_ms: u64,
    /// Mount without a check of the servers' health.
    pub force_mount: bool,
    pub request_timeout_secs: u64,
    /// The port of the admin endpoint; it is not served.
    pub admin_port: u16,
}

/// The metadata servers to try: those that were listed, or else the one that
/// was named, or else none.
pub open spec fn servers_to_try(named: Seq<char>, listed: Seq<Seq<char>>) -> Seq<Seq<char>> {
    if listed.len() > 0 {
        listed
    } else if named.len() > 0 {
        seq![named]
    } else {
        Seq::empty()
    }
}

/// An address without its protocol.
pub open spec fn without_protocol(a: Seq<char>) -> Seq<char> {
    if stands_at(a, "http://"@, 0) {
        a.skip("http://"@.len() as int)
    } else if stands_at(a, "https://"@, 0) {
        a.skip("https://"@.len() as int)
    } else {
        a
    }
}

/// The text up to the first colon.
pub open spec fn until_colon(s: Seq<char>) -> Seq<char>
    decreases s.len(),
{
    if s.len() == 0 || s[0] == ':' {
        Seq::empty()
    } else {
        seq![s[0]] + until_colon(s.skip(1))
    }
}

/// The host of an address: without protocol and port.
pub open spec fn host_of(a: Seq<char>) -> Seq<char> {
    until_colon(without_protocol(a))
}

/// The text up to the first colon.
fn cut_at_colon(s: &str) -> (r: String)
    ensures
        r@ == until_colon(s@),
{
    let cs: Vec<char> = chars_of(s);
    let mut i: usize = 0;
    assert(s@.take(0) + until_colon(s@.skip(0)) =~= until_colon(s@)) by {
        assert(s@.skip(0) =~= s@);
    }
    while i < cs.len() && cs[i] != ':'
        invariant
            cs@ == s@,
            i <= cs.len(),
            s@.take(i as int) + until_colon(s@.skip(i as int)) == until_colon(s@),
        decreases cs.len() - i,
    {
        let ghost rest = s@.skip(i as int);
        assert(rest[0] == s@[i as int]);
        assert(rest.skip(1) =~= s@.skip(i as int + 1));
        assert(s@.take(i as int) + (seq![rest[0]] + until_colon(rest.skip(1))) =~= s@.take(
            i as int + 1,
        ) + until_colon(s@.skip(i as int + 1)));
        i += 1;
    }
    proof {
        let rest = s@.skip(i as int);
        if i < s@.len() {
            assert(rest[0] == s@[i as int]);
        }
        assert(until_colon(rest) =~= Seq::<char>::empty());
        assert(s@.take(i as int) + Seq::<char>::empty() =~= s@.take(i as int));
        assert(s@.subrange(0, i as int) =~= s@.take(i as int));
    }
    s.substring_char(0, i).to_owned()
}

/// The host of an address: without protocol and port.
pub fn host(address: &str) -> (r: String)
    ensures
        r@ == host_of(address@),
{
    let n: usize = address.unicode_len();
    let skip: usize = if begins_with(address, "http://") {
        "http://".unicode_len()
    } else if begins_with(address, "https://") {
        "https://".unicode_len()
    } else {
        0
    };
    assert(address@.subrange(skip as int, n as int) =~= without_protocol(address@));
    cut_at_colon(address.substring_char(skip, n))
}

/// A copy of a list of strings.
fn copy_strings(v: &Vec<String>) -> (r: Vec<String>)
    ensures
        texts(r@) == texts(v@),
{
    let mut r: Vec<String> = Vec::new();
    let mut i: usize = 0;
    while i < v.len()
        invariant
            i <= v.len(),
            texts(r@) == texts(v@).take(i as int),
        decreases v.len() - i,
    {
        let ghost before = texts(r@);
        r.push(v[i].clone());
        i += 1;
        assert(texts(r@) =~= before.push(texts(v@)[i - 1]));
        assert(texts(r@) =~= texts(v@).take(i as int));
    }
    assert(texts(v@).take(i as int) =~= texts(v@));
    r
}

impl FuseApp {
    /// The settings of a mount. Where no metadata servers are listed, the one
    /// that is named stands in for them, unless its name is empty.
    pub fn new(
        master_addrs: &Vec<String>,
        mount_point: &str,
        collection: &str,
        replication: &str,
        master_net_port: u16,
        volume_net_port: u16,
        volume_addrs: Vec<String>,
        filer_addr: String,
        filer_addrs: Vec<String>,
        filer_net_port: u16,
        lease_mode: &str,
        lease_duration_ms: u64,
        lease_renew_interval_ms: u64,
        force_mount: bool,
        request_timeout_secs: u64,
        admin_port: u16,
    ) -> (r: Self)
        ensures
            r.mount_point@ == mount_point@,
            texts(r.master_addresses@) == texts(master_addrs@),
            r.collection@ == collection@,
            r.replication@ == replication@,
            r.master_net_port == master_net_port,
            r.volume_net_port == volume_net_port,
            texts(r.volume_addrs@) == texts(volume_addrs@),
            r.filer_addr@ == filer_addr@,
            texts(r.filer_addrs@) == servers_to_try(filer_addr@, texts(filer_addrs@)),
            r.filer_net_port == filer_net_port,
            r.lease_mode@ == lease_mode@,
            r.lease_duration_ms == lease_duration_ms,
            r.lease_renew_interval_ms == lease_renew_interval_ms,
            r.force_mount == force_mount,
            r.request_timeout_secs == request_timeout_secs,
            r.admin_port == admin_port,
    {
        let servers: Vec<String> = if filer_addrs.len() > 0 {
            filer_addrs
        } else {
            let mut v: Vec<String> = Vec::new();
            if filer_addr.as_str().unicode_len() > 0 {
                v.push(filer_addr.clone());
                assert(texts(v@) =~= seq![filer_addr@]);
            } else {
                assert(texts(v@) =~= Seq::<Seq<char>>::empty());
            }
            v
        };
        FuseApp {
            mount_point: mount_point.to_owned(),
            master_addresses: copy_strings(master_addrs),
            collection: collection.to_owned(),
            replication: replication.to_owned(),
            master_net_port,
            volume_net_port,
            volume_addrs,
            filer_addr,
            filer_addrs: servers,
            filer_net_port,
            lease_mode: lease_mode.to_owned(),
            lease_duration_ms,
            lease_renew_interval_ms,
            force_mount,
            request_timeout_secs,
            admin_port,
        }
    }

    /// The hosts of the master servers. There must be one.
    pub fn master_hosts(&self) -> (r: Result<Vec<String>, String>)
        ensures
            match r {
                Ok(v) => {
                    &&& self.master_addresses@.len() > 0
                    &&& v@.len() == self.master_addresses@.len()
                    &&& forall|i: int|
                        0 <= i < v@.len() ==> (#[trigger] v@[i])@ == host_of(
                            self.master_addresses@[i]@,
                        )
                },
                Err(m) => self.master_addresses@.len() == 0 && m@
                    == "master_addresses is empty (must be configured)"@,
            },
    {
        if self.master_addresses.len() == 0 {
            return Err("master_addresses is empty (must be configured)".to_owned());
        }
        let mut v: Vec<String> = Vec::new();
        let mut i: usize = 0;
        while i < self.master_addresses.len()
            invariant
                i <= self.master_addresses.len(),
                v@.len() == i,
                forall|j: int|
                    0 <= j < i ==> (#[trigger] v@[j])@ == host_of(self.master_addresses@[j]@),
            decreases self.master_addresses.len() - i,
        {
            v.push(host(self.master_addresses[i].as_str()));
            i += 1;
        }
        Ok(v)
    }
}

/// How many requests of the kernel are worked on at once: one per processor,
/// and at least four, since most of the time they wait for a server.
pub fn worker_count(processors: usize) -> (r: usize)
    ensures
        r == if processors > 4 {
            processors
        } else {
            4
        },
{
    if processors > 4 {
        processors
    } else {
        4
    }
}

/// How long the background flusher rests, in milliseconds: shorter while there
/// is work.
pub fn flusher_pause_ms(worked: bool) -> (r: u64)
    ensures
        r == if worked {
            20u64
        } else {
            100
        },
{
    if worked {
        20
    } else {
        100
    }
}

} // verus!
