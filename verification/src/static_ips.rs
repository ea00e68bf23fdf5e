//! The static addresses of a router, as its configuration lists them.
use vstd::prelude::*;

use crate::addr::{ip_value, net_contains, parse_ip, IpAddr, IpNet};
use crate::error::Error;
use crate::ip_map::IpMap;
use crate::text::{after_slash, before_slash, cut_at_slash};

verus! {

/// The static addresses of a router, and the local addresses that some are paired with.
#[derive(Debug)]
pub struct StaticIps {
    pub ips: Vec<IpAddr>,
    pub locals: IpMap<IpAddr>,
}

/// What [`StaticIps`] holds.
#[verifier::ext_equal]
pub struct StaticIpsView {
    pub ips: Seq<IpAddr>,
    pub locals: Map<IpAddr, IpAddr>,
}

/// What an entry of the list says, once its addresses have been read.
#[derive(Clone, Copy, Debug, PartialEq, Eq, Structural)]
pub struct Entry {
    /// The static address, if the text before the slash is one.
    pub ip: Option<IpAddr>,
    /// Nothing where the entry has no slash. Else the local address, if the text between the first
    /// slash and the next one is an address.
    pub local: Option<Option<IpAddr>>,
}

/// What an entry of the list says.
pub open spec fn entry_value(text: Seq<char>) -> Entry {
    Entry {
        ip: ip_value(before_slash(text)),
        local: match after_slash(text) {
            Some(rest) => Some(ip_value(before_slash(rest))),
            None => None,
        },
    }
}

impl StaticIpsView {
    /// No static address.
    pub open spec fn empty() -> Self {
        StaticIpsView { ips: Seq::empty(), locals: Map::empty() }
    }

    /// The list with one entry more. An entry whose static address cannot be read changes nothing.
    /// A local address must be an address of the router's network.
    pub open spec fn with_entry(self, net: IpNet, entry: Entry) -> Result<Self, Error> {
        match entry {
            Entry { ip: None, .. } => Ok(self),
            Entry { ip: Some(ip), local: None } => Ok(
                StaticIpsView { ips: self.ips.push(ip), locals: self.locals },
            ),
            Entry { ip: Some(ip), local: Some(None) } => Err(Error::InvalidAddr),
            Entry { ip: Some(ip), local: Some(Some(local)) } => if net.has(local) {
                Ok(
                    StaticIpsView {
                        ips: self.ips.push(ip),
                        locals: self.locals.insert(ip, local),
                    },
                )
            } else {
                Err(Error::LocalIpBeyondStaticIpsSubset)
            },
        }
    }

    /// The list with the address of the deprecated setting, where that is an address.
    pub open spec fn with_single(self, ip: Option<IpAddr>) -> Self {
        match ip {
            Some(ip) => StaticIpsView { ips: self.ips.push(ip), locals: self.locals },
            None => self,
        }
    }

    /// Either no static address is paired with a local one, or as many are as there are static
    /// addresses.
    pub open spec fn balanced(self) -> bool {
        self.locals.dom().len() > 0 ==> self.locals.dom().len() == self.ips.len()
    }

    /// Only static addresses are paired.
    pub open spec fn paired(self) -> bool {
        forall|ip: IpAddr| #[trigger] self.locals.dom().contains(ip) ==> self.ips.contains(ip)
    }

    /// Only static addresses are paired, and only with addresses of the router's network.
    pub open spec fn sound(self, net: IpNet) -> bool {
        &&& self.paired()
        &&& forall|ip: IpAddr| #[trigger]
            self.locals.dom().contains(ip) ==> net.has(self.locals[ip])
    }
}

/// What a list of entries says: the first entry that is in error decides.
pub open spec fn entries_value(net: IpNet, entries: Seq<String>) -> Result<StaticIpsView, Error>
    decreases entries.len(),
{
    if entries.len() == 0 {
        Ok(StaticIpsView::empty())
    } else {
        match entries_value(net, entries.drop_last()) {
            Ok(list) => list.with_entry(net, entry_value(entries.last()@)),
            Err(err) => Err(err),
        }
    }
}

/// What the two settings of static addresses say together.
pub open spec fn settings_value(
    net: IpNet,
    entries: Seq<String>,
    single: Seq<char>,
) -> Result<StaticIpsView, Error> {
    match entries_value(net, entries) {
        Ok(list) => if single.len() > 0 {
            Ok(list.with_single(ip_value(single)))
        } else {
            Ok(list)
        },
        Err(err) => Err(err),
    }
}

/// An error among the first entries is the error of the whole list.
proof fn lemma_first_error(net: IpNet, entries: Seq<String>, n: int)
    requires
        0 <= n <= entries.len(),
        entries_value(net, entries.take(n)) is Err,
    ensures
        entries_value(net, entries) == entries_value(net, entries.take(n)),
    decreases entries.len(),
{
    if n < entries.len() {
        assert(entries.drop_last().take(n) =~= entries.take(n));
        lemma_first_error(net, entries.drop_last(), n);
    } else {
        assert(entries.take(n) =~= entries);
    }
}

/// A list with one address more contains that one, and those that it contained.
proof fn lemma_push_contains(ips: Seq<IpAddr>, ip: IpAddr)
    ensures
        ips.push(ip).contains(ip),
        forall|k: IpAddr| ips.contains(k) ==> #[trigger] ips.push(ip).contains(k),
{
    let more = ips.push(ip);
    assert(more[ips.len() as int] == ip);
    assert forall|k: IpAddr| ips.contains(k) implies #[trigger] more.contains(k) by {
        let i = choose|i: int| 0 <= i < ips.len() && ips[i] == k;
        assert(more[i] == k);
    }
}

impl View for StaticIps {
    type V = StaticIpsView;

    open spec fn view(&self) -> StaticIpsView {
        StaticIpsView { ips: self.ips@, locals: self.locals@ }
    }
}

/// Reads an entry of the list: a static address, and behind a slash, if there is one, a local
/// address. What stands behind a second slash is not read.
pub fn read_entry(text: &str) -> (res: Entry)
    ensures
        res == entry_value(text@),
{
    let (first, rest) = cut_at_slash(text);
    let local = match rest {
        Some(rest) => Some(parse_ip(cut_at_slash(rest).0)),
        None => None,
    };
    Entry { ip: parse_ip(first), local }
}

impl StaticIps {
    /// The pairs are sound.
    pub open spec fn wf(self, net: IpNet) -> bool {
        self@.sound(net)
    }

    /// No static address.
    pub fn new() -> (res: Self)
        ensures
            forall|net: IpNet| res.wf(net),
            res@ == StaticIpsView::empty(),
    {
        StaticIps { ips: Vec::new(), locals: IpMap::new() }
    }

    /// Adds an entry of the list.
    pub fn add_entry(&mut self, net: IpNet, entry: Entry) -> (res: Result<(), Error>)
        requires
            net.wf(),
            old(self).wf(net),
        ensures
            final(self).wf(net),
            match old(self)@.with_entry(net, entry) {
                Ok(list) => res is Ok && final(self)@ == list,
                Err(err) => res == Err::<(), Error>(err) && final(self)@ == old(self)@,
            },
    {
        let ghost before = self@;
        let ip = match entry.ip {
            Some(ip) => ip,
            None => { return Ok(()); },
        };
        match entry.local {
            Some(Some(local)) => {
                if !net_contains(net, local) {
                    return Err(Error::LocalIpBeyondStaticIpsSubset);
                }
                self.locals.insert(ip, local);
            },
            Some(None) => {
                return Err(Error::InvalidAddr);
            },
            None => {},
        }
        self.ips.push(ip);
        proof {
            lemma_push_contains(before.ips, ip);
        }
        Ok(())
    }

    /// Adds the address of the deprecated setting.
    pub fn add_single(&mut self, ip: Option<IpAddr>)
        ensures
            forall|net: IpNet| old(self).wf(net) ==> final(self).wf(net),
            final(self)@ == old(self)@.with_single(ip),
    {
        let ghost before = self@;
        if let Some(ip) = ip {
            self.ips.push(ip);
            proof {
                lemma_push_contains(before.ips, ip);
                assert forall|net: IpNet| before.sound(net) implies #[trigger] self@.sound(net) by {
                    assert(self@ == before.with_single(Some(ip)));
                }
            }
        }
    }

    /// Reads both settings of static addresses.
    pub fn read(net: IpNet, entries: &Vec<String>, single: &str) -> (res: Result<Self, Error>)
        requires
            net.wf(),
        ensures
            match settings_value(net, entries@, single@) {
                Ok(list) => res matches Ok(ips) && ips@ == list && ips.wf(net),
                Err(err) => res matches Err(e) && e == err,
            },
    {
        let mut list = StaticIps::new();
        let mut i: usize = 0;
        assert(entries@.take(0) =~= Seq::<String>::empty());
        while i < entries.len()
            invariant
                i <= entries@.len(),
                net.wf(),
                list.wf(net),
                entries_value(net, entries@.take(i as int)) == Ok::<StaticIpsView, Error>(list@),
            decreases entries@.len() - i,
        {
            let entry = read_entry(entries[i].as_str());
            let added = list.add_entry(net, entry);
            proof {
                assert(entries@.take(i + 1).drop_last() =~= entries@.take(i as int));
            }
            if let Err(err) = added {
                proof {
                    lemma_first_error(net, entries@, i + 1);
                }
                return Err(err);
            }
            i = i + 1;
        }
        assert(entries@.take(i as int) =~= entries@);
        if !single.is_empty() {
            list.add_single(parse_ip(single));
        }
        Ok(list)
    }

    /// Whether the pairs can stand: see [`StaticIpsView::balanced`].
    pub fn is_balanced(&self) -> (res: bool)
        requires
            self@.paired(),
        ensures
            res == self@.balanced(),
    {
        proof {
            let paired = self.locals@.dom();
            self.ips@.lemma_cardinality_of_set();
            assert forall|ip: IpAddr| paired.contains(ip) implies self.ips@.to_set().contains(
                ip,
            ) by {
                assert(self@.locals.dom().contains(ip));
            }
            vstd::set_lib::lemma_len_subset(paired, self.ips@.to_set());
        }
        let len: usize = self.ips.len();
        let n: usize = self.locals.len();
        n == 0 || n == len
    }
}

} // verus!
