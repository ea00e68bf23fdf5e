//! What the calls that set up a router do, said of their arguments and results.
use vstd::prelude::*;

use crate::addr::{cidr, cidr_value, ip_value, IpAddr, IpNet, SocketAddr};
use crate::chunk_queue::Chunk;
use crate::config::{Duration, NatConfig, RouterConfig};
use crate::error::Error;
use crate::interface::Kind;
use crate::ip_map::IpMap;
use crate::nic::{NicId, NIC};
use crate::router::{Router, RouterIdCounter};
use crate::routing_laws::{family_bits, shares_prefix};
use crate::running::{InboundOutcome, Processed, PushOutcome};
use crate::running_laws::due;
use crate::static_ips::{
    entries_value, entry_value, read_entry, settings_value, Entry, StaticIps, StaticIpsView,
};
use crate::text::{after_slash, before_slash, cut_at_slash, decimal, decimal_text};

verus! {

/// The text is `a`, a slash and `b`, and that is its first slash.
pub open spec fn splits(text: Seq<char>, a: Seq<char>, b: Seq<char>) -> bool {
    text == a + seq!['/'] + b && !a.contains('/')
}

proof fn lemma_cut(text: Seq<char>)
    ensures
        after_slash(text) is None <==> !text.contains('/'),
        after_slash(text) is None ==> before_slash(text) == text,
        after_slash(text) matches Some(rest) ==> splits(text, before_slash(text), rest),
{
    text.index_of_first_ensures('/');
    if let Some(i) = text.index_of_first('/') {
        let a = text.subrange(0, i);
        let b = text.subrange(i + 1, text.len() as int);
        assert(text =~= a + seq!['/'] + b);
        if a.contains('/') {
            let j = choose|j: int| 0 <= j < a.len() && a[j] == '/';
            assert(text[j] == '/');
        }
    }
}

/// A text splits in one way only.
proof fn lemma_splits_once(
    text: Seq<char>,
    a: Seq<char>,
    b: Seq<char>,
    c: Seq<char>,
    d: Seq<char>,
)
    requires
        splits(text, a, b),
        splits(text, c, d),
    ensures
        a == c,
        b == d,
{
    if a.len() < c.len() {
        assert(text[a.len() as int] == '/');
        assert(c[a.len() as int] == '/');
        assert(c.contains('/'));
    }
    if c.len() < a.len() {
        assert(text[c.len() as int] == '/');
        assert(a[c.len() as int] == '/');
        assert(a.contains('/'));
    }
    assert(a =~= c) by {
        assert(a =~= text.subrange(0, a.len() as int));
        assert(c =~= text.subrange(0, c.len() as int));
    }
    assert(b =~= d) by {
        assert(b =~= text.subrange(a.len() as int + 1, text.len() as int));
        assert(d =~= text.subrange(c.len() as int + 1, text.len() as int));
    }
}

/// A text is cut at its first slash: what comes out and the slash make up the text again. A text
/// without a slash stays whole.
pub proof fn cut_parts_make_up_the_text(text: &str, res: (&str, Option<&str>))
    requires
        call_ensures(cut_at_slash, (text,), res),
    ensures
        res.1 is None <==> !text@.contains('/'),
        res.1 is None ==> res.0@ == text@,
        res.1 matches Some(rest) ==> splits(text@, res.0@, rest@),
{
    lemma_cut(text@);
}

/// The number that a row of decimal digits stands for.
pub open spec fn number_value(digits: Seq<char>) -> int
    decreases digits.len(),
{
    if digits.len() == 0 {
        0
    } else {
        number_value(digits.drop_last()) * 10 + (digits.last() as int - '0' as int)
    }
}

/// The text is the decimal notation of a number: digits that stand for it, the first of which is no
/// zero unless it is the only one.
pub open spec fn denotes(digits: Seq<char>, n: int) -> bool {
    &&& digits.len() > 0
    &&& forall|i: int| 0 <= i < digits.len() ==> '0' <= #[trigger] digits[i] <= '9'
    &&& digits.len() > 1 ==> digits[0] != '0'
    &&& number_value(digits) == n
}

proof fn lemma_decimal_denotes(n: nat)
    ensures
        denotes(decimal(n), n as int),
        n > 0 ==> decimal(n)[0] != '0',
    decreases n,
{
    let s = decimal(n);
    if n < 10 {
        assert(s.drop_last() =~= Seq::<char>::empty());
        assert(number_value(s.drop_last()) == 0);
    } else {
        lemma_decimal_denotes(n / 10);
        assert(s.drop_last() =~= decimal(n / 10));
        assert forall|i: int| 0 <= i < s.len() implies '0' <= #[trigger] s[i] <= '9' by {
            if i < s.len() - 1 {
                assert(s[i] == decimal(n / 10)[i]);
            }
        }
        assert(s[0] == decimal(n / 10)[0]);
    }
}

/// A number is written in the digits that stand for it.
pub proof fn number_is_written_in_its_digits(n: u64, res: String)
    requires
        call_ensures(decimal_text, (n,), res),
    ensures
        denotes(res@, n as int),
{
    lemma_decimal_denotes(n as nat);
}

/// The counter gives the name of its number, and goes on to the next one. Behind the last it starts
/// again at zero.
pub proof fn counter_names_routers_in_turn(ids: &mut RouterIdCounter, res: String)
    requires
        call_ensures(RouterIdCounter::assign_router_name, (ids,), res),
    ensures
        exists|digits: Seq<char>| #[trigger]
            denotes(digits, old(ids).next as int) && res@ == "router"@ + digits,
        old(ids).next < u64::MAX ==> final(ids).next == old(ids).next + 1,
        old(ids).next == u64::MAX ==> final(ids).next == 0,
{
    lemma_decimal_denotes(old(ids).next as nat);
}

/// A new counter starts at zero.
pub proof fn new_counter_starts_at_zero(res: RouterIdCounter)
    requires
        call_ensures(RouterIdCounter::new, (), res),
    ensures
        res.next == 0,
{
}

/// What a text of the list of static addresses says: an address, and, where there is a slash, a local
/// address, which ends at a second slash.
pub open spec fn says(text: Seq<char>, entry: Entry) -> bool {
    if !text.contains('/') {
        entry.ip == ip_value(text) && entry.local is None
    } else {
        exists|a: Seq<char>, b: Seq<char>|
            {
                &&& #[trigger] splits(text, a, b)
                &&& entry.ip == ip_value(a)
                &&& !b.contains('/') ==> entry.local == Some(ip_value(b))
                &&& b.contains('/') ==> exists|c: Seq<char>, d: Seq<char>| #[trigger]
                    splits(b, c, d) && entry.local == Some(ip_value(c))
            }
    }
}

proof fn lemma_says(text: Seq<char>, entry: Entry)
    ensures
        says(text, entry) <==> entry == entry_value(text),
{
    lemma_cut(text);
    if text.contains('/') {
        let a0 = before_slash(text);
        let b0 = after_slash(text)->Some_0;
        lemma_cut(b0);
        if says(text, entry) {
            let (a, b) = choose|a: Seq<char>, b: Seq<char>|
                {
                    &&& #[trigger] splits(text, a, b)
                    &&& entry.ip == ip_value(a)
                    &&& !b.contains('/') ==> entry.local == Some(ip_value(b))
                    &&& b.contains('/') ==> exists|c: Seq<char>, d: Seq<char>| #[trigger]
                        splits(b, c, d) && entry.local == Some(ip_value(c))
                };
            lemma_splits_once(text, a, b, a0, b0);
            if b.contains('/') {
                let (c, d) = choose|c: Seq<char>, d: Seq<char>| #[trigger]
                    splits(b, c, d) && entry.local == Some(ip_value(c));
                lemma_splits_once(b, c, d, before_slash(b0), after_slash(b0)->Some_0);
            }
        }
        if entry == entry_value(text) {
            assert(splits(text, a0, b0));
            if b0.contains('/') {
                assert(splits(b0, before_slash(b0), after_slash(b0)->Some_0));
            }
        }
    }
}

/// An entry is read as what its text says.
pub proof fn entry_is_read_as_it_says(text: &str, res: Entry)
    requires
        call_ensures(read_entry, (text,), res),
    ensures
        says(text@, res),
{
    lemma_says(text@, res);
}

/// What is wrong with an entry: its local address cannot be read, or lies outside the network. An
/// entry whose static address cannot be read is never wrong.
pub open spec fn fault(net: IpNet, entry: Entry) -> Option<Error> {
    if entry.ip is None || entry.local is None {
        None
    } else if entry.local == Some(None::<IpAddr>) {
        Some(Error::InvalidAddr)
    } else if !shares_prefix(net, entry.local->Some_0->Some_0) {
        Some(Error::LocalIpBeyondStaticIpsSubset)
    } else {
        None
    }
}

/// The entry pairs the static address `ip` with the local address `local`.
pub open spec fn pairs(entry: Entry, ip: IpAddr, local: IpAddr) -> bool {
    entry.ip == Some(ip) && entry.local == Some(Some(local))
}

/// An entry is taken into the list unless something is wrong with it. Its static address comes behind
/// all others, and is paired with the local one, if there is one. An entry without a static address
/// and one that is wrong change nothing.
pub proof fn entry_is_taken_unless_it_is_wrong(
    list: &mut StaticIps,
    net: IpNet,
    entry: Entry,
    res: Result<(), Error>,
)
    requires
        call_ensures(StaticIps::add_entry, (list, net, entry), res),
    ensures
        res is Ok <==> fault(net, entry) is None,
        res matches Err(err) ==> fault(net, entry) == Some(err),
        res is Ok ==> (entry.ip matches Some(ip) ==> {
            &&& final(list).ips@.len() == old(list).ips@.len() + 1
            &&& final(list).ips@.last() == ip
            &&& final(list).ips@.drop_last() == old(list).ips@
        }),
        res is Err || entry.ip is None ==> {
            &&& final(list).ips@ == old(list).ips@
            &&& final(list).locals@ == old(list).locals@
        },
        res is Ok ==> (entry.ip matches Some(ip) ==> (entry.local matches Some(Some(local)) ==> {
            &&& final(list).locals@.dom().contains(ip)
            &&& final(list).locals@[ip] == local
        })),
        entry.local is None ==> final(list).locals@ == old(list).locals@,
        forall|k: IpAddr|
            entry.ip != Some(k) ==> {
                &&& #[trigger] final(list).locals@.dom().contains(k) == old(
                    list,
                ).locals@.dom().contains(k)
                &&& old(list).locals@.dom().contains(k) ==> final(list).locals@[k] == old(
                    list,
                ).locals@[k]
            },
{
    if res is Ok && entry.ip is Some {
        assert(final(list).ips@.drop_last() =~= old(list).ips@);
    }
}

/// The deprecated setting adds an address without a local one, where it is one.
pub proof fn single_address_is_added(list: &mut StaticIps, ip: Option<IpAddr>)
    requires
        call_ensures(StaticIps::add_single, (list, ip), ()),
    ensures
        ip matches Some(added) ==> final(list).ips@ == old(list).ips@.push(added),
        ip is None ==> final(list).ips@ == old(list).ips@,
        final(list).locals@ == old(list).locals@,
{
}

/// A new list is empty.
pub proof fn new_list_is_empty(res: StaticIps)
    requires
        call_ensures(StaticIps::new, (), res),
    ensures
        res.ips@.len() == 0,
        forall|ip: IpAddr| !(#[trigger] res.locals@.dom().contains(ip)),
{
}

/// A list can stand where no static address is paired, and where as many are as there are.
pub proof fn list_stands_with_all_paired_or_none(list: &StaticIps, res: bool)
    requires
        call_ensures(StaticIps::is_balanced, (list,), res),
    ensures
        res <==> list.locals@.dom().len() == 0 || list.locals@.dom().len() == list.ips@.len(),
{
}

/// The entries are what the texts say, one by one.
pub open spec fn all_say(texts: Seq<String>, said: Seq<Entry>) -> bool {
    &&& said.len() == texts.len()
    &&& forall|i: int| 0 <= i < texts.len() ==> says(#[trigger] texts[i]@, said[i])
}

/// The entry at `i` is wrong, and none before it is.
pub open spec fn first_fault(net: IpNet, said: Seq<Entry>, i: int, err: Error) -> bool {
    &&& 0 <= i < said.len()
    &&& fault(net, said[i]) == Some(err)
    &&& forall|j: int| 0 <= j < i ==> fault(net, #[trigger] said[j]) is None
}

/// No entry is wrong.
pub open spec fn faultless(net: IpNet, said: Seq<Entry>) -> bool {
    forall|i: int| 0 <= i < said.len() ==> fault(net, #[trigger] said[i]) is None
}

/// The static addresses of the entries, in their order, and behind them that of the deprecated
/// setting.
pub open spec fn listed_ips(said: Seq<Entry>, single: Seq<char>) -> Seq<IpAddr> {
    let ips = said.filter_map(|entry: Entry| entry.ip);
    if single.len() > 0 && ip_value(single) is Some {
        ips.push(ip_value(single)->Some_0)
    } else {
        ips
    }
}

/// The map pairs what the entries pair. Of several entries for one static address the last decides.
pub open spec fn pairs_as_listed(locals: Map<IpAddr, IpAddr>, said: Seq<Entry>) -> bool {
    &&& forall|i: int, ip: IpAddr, local: IpAddr|
        0 <= i < said.len() && #[trigger] pairs(said[i], ip, local) ==> locals.dom().contains(ip)
    &&& forall|ip: IpAddr| #[trigger]
        locals.dom().contains(ip) ==> exists|i: int|
            {
                &&& 0 <= i < said.len()
                &&& #[trigger] pairs(said[i], ip, locals[ip])
                &&& forall|j: int, local: IpAddr|
                    i < j < said.len() ==> !(#[trigger] pairs(said[j], ip, local))
            }
}

proof fn lemma_pairs_push(
    before: Map<IpAddr, IpAddr>,
    after: Map<IpAddr, IpAddr>,
    said: Seq<Entry>,
    entry: Entry,
)
    requires
        pairs_as_listed(before, said),
        forall|ip: IpAddr, local: IpAddr| #[trigger]
            pairs(entry, ip, local) ==> after == before.insert(ip, local),
        (forall|ip: IpAddr, local: IpAddr| !(#[trigger] pairs(entry, ip, local))) ==> after
            == before,
    ensures
        pairs_as_listed(after, said.push(entry)),
{
    let more = said.push(entry);
    assert forall|i: int, ip: IpAddr, local: IpAddr|
        0 <= i < more.len() && #[trigger] pairs(more[i], ip, local) implies after.dom().contains(
        ip,
    ) by {
        if i < said.len() {
            assert(pairs(said[i], ip, local));
        } else {
            assert(pairs(entry, ip, local));
        }
    }
    assert forall|ip: IpAddr| #[trigger] after.dom().contains(ip) implies exists|i: int|
        {
            &&& 0 <= i < more.len()
            &&& #[trigger] pairs(more[i], ip, after[ip])
            &&& forall|j: int, local: IpAddr|
                i < j < more.len() ==> !(#[trigger] pairs(more[j], ip, local))
        } by {
        if exists|local: IpAddr| #[trigger] pairs(entry, ip, local) {
            let local = choose|local: IpAddr| #[trigger] pairs(entry, ip, local);
            assert(pairs(more[said.len() as int], ip, after[ip]));
        } else {
            assert(before.dom().contains(ip) && after[ip] == before[ip]) by {
                if exists|k: IpAddr, l: IpAddr| #[trigger] pairs(entry, k, l) {
                    let (k, l) = choose|k: IpAddr, l: IpAddr| #[trigger] pairs(entry, k, l);
                    assert(after == before.insert(k, l));
                    assert(k != ip);
                }
            }
            let i = choose|i: int|
                {
                    &&& 0 <= i < said.len()
                    &&& #[trigger] pairs(said[i], ip, before[ip])
                    &&& forall|j: int, local: IpAddr|
                        i < j < said.len() ==> !(#[trigger] pairs(said[j], ip, local))
                };
            assert(pairs(more[i], ip, after[ip]));
            assert forall|j: int, local: IpAddr| i < j < more.len() implies !(#[trigger] pairs(
                more[j],
                ip,
                local,
            )) by {
                if j < said.len() {
                    assert(more[j] == said[j]);
                    assert(!pairs(said[j], ip, local));
                } else {
                    assert(more[j] == entry);
                }
            }
        }
    }
}

proof fn lemma_entries(net: IpNet, texts: Seq<String>, said: Seq<Entry>)
    requires
        all_say(texts, said),
    ensures
        match entries_value(net, texts) {
            Ok(list) => {
                &&& faultless(net, said)
                &&& list.ips == said.filter_map(|entry: Entry| entry.ip)
                &&& pairs_as_listed(list.locals, said)
            },
            Err(err) => exists|i: int| #[trigger] first_fault(net, said, i, err),
        },
    decreases texts.len(),
{
    reveal_with_fuel(Seq::filter_map, 2);
    if texts.len() > 0 {
        let n = texts.len() - 1;
        let fewer = said.drop_last();
        let entry = said.last();
        assert forall|i: int| 0 <= i < n implies says(#[trigger] texts.drop_last()[i]@, fewer[i]) by {
            assert(texts[i] == texts.drop_last()[i]);
        }
        lemma_entries(net, texts.drop_last(), fewer);
        assert(says(texts[n]@, said[n]));
        lemma_says(texts[n]@, entry);
        match entries_value(net, texts.drop_last()) {
            Ok(list) => {
                match entries_value(net, texts) {
                    Ok(more) => {
                        assert forall|i: int| 0 <= i < said.len() implies fault(
                            net,
                            #[trigger] said[i],
                        ) is None by {
                            if i < n {
                                assert(fewer[i] == said[i]);
                            }
                        }
                        if entry.ip is Some && entry.local is Some {
                            assert(pairs(entry, entry.ip->Some_0, entry.local->Some_0->Some_0));
                        }
                        lemma_pairs_push(list.locals, more.locals, fewer, entry);
                        assert(fewer.push(entry) =~= said);
                        assert(more.ips =~= said.filter_map(|entry: Entry| entry.ip));
                    },
                    Err(err) => {
                        assert forall|j: int| 0 <= j < n implies fault(
                            net,
                            #[trigger] said[j],
                        ) is None by {
                            assert(fewer[j] == said[j]);
                        }
                        assert(first_fault(net, said, n, err));
                    },
                }
            },
            Err(err) => {
                let i = choose|i: int| #[trigger] first_fault(net, fewer, i, err);
                assert forall|j: int| 0 <= j < i implies fault(net, #[trigger] said[j]) is None by {
                    assert(fewer[j] == said[j]);
                }
                assert(first_fault(net, said, i, err));
            },
        }
    }
}

/// The list of both settings is what the entries say: their static addresses in order, and their pairs.
/// The first entry that is wrong decides where there is one.
pub proof fn settings_are_read_entry_by_entry(
    net: IpNet,
    texts: &Vec<String>,
    single: &str,
    said: Seq<Entry>,
    res: Result<StaticIps, Error>,
)
    requires
        all_say(texts@, said),
        call_ensures(StaticIps::read, (net, texts, single), res),
    ensures
        res is Ok <==> faultless(net, said),
        res matches Ok(list) ==> list.ips@ == listed_ips(said, single@) && pairs_as_listed(
            list.locals@,
            said,
        ),
        res matches Err(err) ==> exists|i: int| #[trigger] first_fault(net, said, i, err),
{
    lemma_entries(net, texts@, said);
}

/// The static addresses that the entries pair with a local one.
pub open spec fn paired_ips(said: Seq<Entry>) -> Set<IpAddr> {
    Set::new(
        |ip: IpAddr|
            exists|i: int, local: IpAddr|
                0 <= i < said.len() && #[trigger] pairs(said[i], ip, local),
    )
}

/// No static address is paired, or as many are as there are.
pub open spec fn pairs_add_up(said: Seq<Entry>, single: Seq<char>) -> bool {
    paired_ips(said).len() == 0 || paired_ips(said).len() == listed_ips(said, single).len()
}

/// The router is as the configuration asks: it has the network and the settings that it was given,
/// interfaces `lo0`, at 127.0.0.1, and `eth0`, which has no address yet, and nothing else.
pub open spec fn is_as_configured<P, F>(
    r: Router<P, F>,
    config: RouterConfig,
    net: IpNet,
) -> bool {
    &&& r.ipv4net == net
    &&& r.interfaces@.len() == 2
    &&& r.interfaces@[0].name@ == "lo0"@
    &&& r.interfaces@[0].kind == Kind::Ipv4
    &&& r.interfaces@[0].addr == Some(SocketAddr { ip: IpAddr::V4(0x7f00_0001), port: 0 })
    &&& r.interfaces@[0].mask is None
    &&& r.interfaces@[0].hop is None
    &&& r.interfaces@[1].name@ == "eth0"@
    &&& r.interfaces@[1].kind == Kind::Ipv4
    &&& r.interfaces@[1].addr is None
    &&& r.interfaces@[1].mask is None
    &&& r.interfaces@[1].hop is None
    &&& r.queue.chunks@.len() == 0
    &&& r.queue.max_size == config.queue_size
    &&& r.nat_type == config.nat_type
    &&& r.min_delay == config.min_delay
    &&& r.max_jitter == config.max_jitter
    &&& r.last_id == 0
    &&& r.parent is None
    &&& r.children@.len() == 0
    &&& r.chunk_filters@.len() == 0
    &&& !r.done
    &&& !r.push_ch
    &&& forall|ip: IpAddr| !(#[trigger] r.nics@.dom().contains(ip))
}

/// What comes of making a router for a network that has been read: it is made unless an entry of the
/// list is wrong or the pairs do not add up. A given name is kept; else the counter gives one, also
/// where the router is refused.
pub open spec fn made_or_refused<P, F>(
    config: RouterConfig,
    net: IpNet,
    said: Seq<Entry>,
    before: RouterIdCounter,
    after: RouterIdCounter,
    res: Result<Router<P, F>, Error>,
) -> bool {
    &&& res is Ok <==> faultless(net, said) && pairs_add_up(said, config.static_ip@)
    &&& res matches Ok(r) ==> {
        &&& is_as_configured(r, config, net)
        &&& r.static_ips@ == listed_ips(said, config.static_ip@)
        &&& pairs_as_listed(r.static_local_ips@, said)
        &&& config.name@.len() > 0 ==> r.name@ == config.name@
        &&& config.name@.len() == 0 ==> exists|digits: Seq<char>| #[trigger]
            denotes(digits, before.next as int) && r.name@ == "router"@ + digits
    }
    &&& res matches Err(err) ==> {
        ||| exists|i: int| #[trigger] first_fault(net, said, i, err)
        ||| faultless(net, said) && err == Error::LocalIpNoStaticsIpsAssociated
    }
    &&& config.name@.len() > 0 ==> after == before
    &&& config.name@.len() == 0 && before.next < u64::MAX ==> after.next == before.next + 1
    &&& config.name@.len() == 0 && before.next == u64::MAX ==> after.next == 0
}

proof fn lemma_made_or_refused<P, F>(
    config: RouterConfig,
    net: IpNet,
    said: Seq<Entry>,
    before: RouterIdCounter,
    after: RouterIdCounter,
    res: Result<Router<P, F>, Error>,
)
    requires
        all_say(config.static_ips@, said),
        Router::construction(
            config,
            net,
            SocketAddr { ip: IpAddr::V4(0x7f00_0001), port: 0 },
            before,
            after,
            res,
        ),
    ensures
        made_or_refused(config, net, said, before, after, res),
{
    lemma_entries(net, config.static_ips@, said);
    lemma_decimal_denotes(before.next as nat);
    match settings_value(net, config.static_ips@, config.static_ip@) {
        Ok(list) => {
            assert(list.locals.dom() =~= paired_ips(said)) by {
                assert forall|ip: IpAddr| #[trigger] list.locals.dom().contains(ip) implies paired_ips(
                    said,
                ).contains(ip) by {
                    let i = choose|i: int|
                        {
                            &&& 0 <= i < said.len()
                            &&& #[trigger] pairs(said[i], ip, list.locals[ip])
                            &&& forall|j: int, local: IpAddr|
                                i < j < said.len() ==> !(#[trigger] pairs(said[j], ip, local))
                        };
                    assert(pairs(said[i], ip, list.locals[ip]));
                }
            }
            if let Ok(r) = res {
                assert(r.static_view() == list);
                assert(r.static_ips@ == list.ips);
                assert(r.static_local_ips@ == list.locals);
            }
        },
        Err(err) => {
            let i = choose|i: int| #[trigger] first_fault(net, said, i, err);
            assert(fault(net, said[i]) is Some);
        },
    }
}

/// A router is made from a configuration whose network can be read, unless its static addresses are in
/// error. A network that cannot be read is an error of its own, and uses up no name.
pub proof fn router_is_made_as_configured<P, F>(
    config: RouterConfig,
    ids: &mut RouterIdCounter,
    said: Seq<Entry>,
    res: Result<Router<P, F>, Error>,
)
    requires
        all_say(config.static_ips@, said),
        call_ensures(Router::<P, F>::new, (config, ids), res),
    ensures
        match cidr_value(config.cidr@) {
            Some(net) => made_or_refused(config, net, said, *old(ids), *final(ids), res),
            None => {
                &&& res matches Err(err) && err == Error::InvalidCidr
                &&& *final(ids) == *old(ids)
            },
        },
{
    if let Some(net) = cidr_value(config.cidr@) {
        lemma_made_or_refused(config, net, said, *old(ids), *final(ids), res);
    }
}

/// The same holds for a network that has been read already.
pub proof fn router_is_made_for_a_network<P, F>(
    config: RouterConfig,
    net: IpNet,
    ids: &mut RouterIdCounter,
    said: Seq<Entry>,
    res: Result<Router<P, F>, Error>,
)
    requires
        all_say(config.static_ips@, said),
        call_ensures(Router::<P, F>::with_net, (config, net, ids), res),
    ensures
        made_or_refused(config, net, said, *old(ids), *final(ids), res),
{
    lemma_made_or_refused(config, net, said, *old(ids), *final(ids), res);
}

/// A local address of the network can be paired, wherever in the network it lies.
pub proof fn one_pair_is_accepted<P, F>(
    config: RouterConfig,
    net: IpNet,
    ids: &mut RouterIdCounter,
    ip: IpAddr,
    local: IpAddr,
    res: Result<Router<P, F>, Error>,
)
    requires
        config.static_ips@.len() == 1,
        says(config.static_ips@[0]@, Entry { ip: Some(ip), local: Some(Some(local)) }),
        config.static_ip@.len() == 0,
        cidr_value(config.cidr@) == Some(net),
        shares_prefix(net, local),
        call_ensures(Router::<P, F>::new, (config, ids), res),
    ensures
        res matches Ok(r) && {
            &&& r.static_ips@ == seq![ip]
            &&& r.static_local_ips@ == Map::<IpAddr, IpAddr>::empty().insert(ip, local)
        },
{
    let entry = Entry { ip: Some(ip), local: Some(Some(local)) };
    lemma_says(config.static_ips@[0]@, entry);
    let texts = config.static_ips@;
    assert(entries_value(net, texts.drop_last()) == Ok::<StaticIpsView, Error>(
        StaticIpsView::empty(),
    ));
    assert(texts.last() == texts[0]);
    let list = StaticIpsView::empty().with_entry(net, entry)->Ok_0;
    assert(list.ips =~= seq![ip]);
    assert(list.locals.dom() =~= set![ip]);
    assert(list.locals.dom().len() == 1);
    if let Ok(r) = res {
        assert(r.static_view() == list);
    }
}

/// A router is put together from what was read, unless the pairs do not add up.
pub proof fn router_is_put_together<P, F>(
    config: RouterConfig,
    net: IpNet,
    name: String,
    list: StaticIps,
    res: Result<Router<P, F>, Error>,
)
    requires
        call_ensures(
            Router::<P, F>::assemble,
            (config, net, SocketAddr { ip: IpAddr::V4(0x7f00_0001), port: 0 }, name, list),
            res,
        ),
    ensures
        res is Ok <==> list.locals@.dom().len() == 0 || list.locals@.dom().len()
            == list.ips@.len(),
        res matches Err(err) ==> err == Error::LocalIpNoStaticsIpsAssociated,
        res matches Ok(r) ==> {
            &&& is_as_configured(r, config, net)
            &&& r.name@ == name@
            &&& r.static_ips@ == list.ips@
            &&& r.static_local_ips@ == list.locals@
        },
{
    if let Ok(r) = res {
        assert(r.static_view() == list@);
    }
}

/// A text is a network or not as its reader says.
pub proof fn network_text_is_read(text: &str, res: Result<IpNet, Error>)
    requires
        call_ensures(cidr, (text,), res),
    ensures
        res is Ok <==> cidr_value(text@) is Some,
        res matches Ok(net) ==> cidr_value(text@) == Some(net) && net.prefix_len <= family_bits(
            net,
        ),
        res matches Err(err) ==> err == Error::InvalidCidr,
{
}

/// What was set in a map is what it gives back, and nothing else changes.
pub proof fn map_gives_back_what_was_set<V: Copy>(
    m: &mut IpMap<V>,
    ip: IpAddr,
    value: V,
    k: IpAddr,
    before: Option<V>,
    after: Option<V>,
)
    requires
        call_ensures(IpMap::<V>::insert, (m, ip, value), ()),
        call_ensures(IpMap::<V>::get, (&*old(m), k), before),
        call_ensures(IpMap::<V>::get, (&*final(m), k), after),
    ensures
        k == ip ==> after == Some(value),
        k != ip ==> after == before,
{
}

/// A new map gives back nothing.
pub proof fn new_map_is_empty<V: Copy>(m: IpMap<V>, k: IpAddr, got: Option<V>, len: usize)
    requires
        call_ensures(IpMap::<V>::new, (), m),
        call_ensures(IpMap::<V>::get, (&m, k), got),
        call_ensures(IpMap::<V>::len, (&m,), len),
    ensures
        got is None,
        len == 0,
{
}

/// A map counts each address once.
pub proof fn map_counts_its_addresses<V>(
    m: &mut IpMap<V>,
    ip: IpAddr,
    value: V,
    before: usize,
    after: usize,
)
    requires
        call_ensures(IpMap::<V>::insert, (m, ip, value), ()),
        call_ensures(IpMap::<V>::len, (&*old(m),), before),
        call_ensures(IpMap::<V>::len, (&*final(m),), after),
    ensures
        old(m)@.dom().contains(ip) ==> after == before,
        !old(m)@.dom().contains(ip) ==> after == before + 1,
{
    old(m).lemma_count();
}

/// A map shows the entries of both families.
pub proof fn map_shows_both_families<V>(m: IpMap<V>, four: u32, six: u128)
    ensures
        m@.dom().contains(IpAddr::V4(four)) <==> m.v4@.dom().contains(four),
        m@.dom().contains(IpAddr::V6(six)) <==> m.v6@.dom().contains(six),
        m.v4@.dom().contains(four) ==> m@[IpAddr::V4(four)] == m.v4@[four],
        m.v6@.dom().contains(six) ==> m@[IpAddr::V6(six)] == m.v6@[six],
{
}

/// What a router keeps: its parts fit each other.
pub open spec fn is_valid<P, F>(r: Router<P, F>) -> bool {
    &&& r.ipv4net.prefix_len <= family_bits(r.ipv4net)
    &&& forall|ip: IpAddr| #[trigger]
        r.static_local_ips@.dom().contains(ip) ==> r.static_ips@.contains(ip) && shares_prefix(
            r.ipv4net,
            r.static_local_ips@[ip],
        )
    &&& r.static_local_ips@.dom().len() == 0 || r.static_local_ips@.dom().len()
        == r.static_ips@.len()
    &&& r.last_id <= 254
    &&& r.queue.max_size > 0 ==> r.queue.chunks@.len() <= r.queue.max_size
    &&& forall|ip: IpAddr| #[trigger]
        r.nics@.dom().contains(ip) ==> shares_prefix(r.ipv4net, ip)
    &&& r.done == r.push_ch
}

/// A router is in order where its parts fit each other.
pub proof fn router_is_in_order_when_its_parts_fit<P, F>(r: Router<P, F>)
    ensures
        r.wf() <==> is_valid(r),
{
    if is_valid(r) {
        assert forall|ip: IpAddr| #[trigger]
            r.static_view().locals.dom().contains(ip) implies r.static_view().ips.contains(ip)
            && r.ipv4net.has(r.static_view().locals[ip]) by {
            assert(r.static_local_ips@.dom().contains(ip));
        }
        assert forall|ip: IpAddr| #[trigger] r.nics@.dom().contains(ip) implies r.ipv4net.has(
            ip,
        ) by {
            assert(shares_prefix(r.ipv4net, ip));
        }
    }
    if r.wf() {
        assert forall|ip: IpAddr| #[trigger]
            r.static_local_ips@.dom().contains(ip) implies r.static_ips@.contains(ip)
            && shares_prefix(r.ipv4net, r.static_local_ips@[ip]) by {
            assert(r.static_view().locals.dom().contains(ip));
        }
    }
}

/// A router that is in order takes every call, with any arguments.
pub proof fn valid_router_takes_every_call<P, F, E>(
    r: &mut Router<P, F>,
    child: &mut Router<P, F>,
    dst: IpAddr,
    nic: NicId,
    asked: &[IpAddr],
    chunk: Chunk<P>,
    translated: Result<Option<Chunk<P>>, E>,
    filter: F,
    random: u64,
    now: Duration,
)
    requires
        is_valid(*old(r)),
    ensures
        call_requires(Router::<P, F>::hop, (&*old(r), dst)),
        call_requires(Router::<P, F>::jitter, (&*old(r), random)),
        call_requires(Router::<P, F>::start, (r,)),
        call_requires(Router::<P, F>::stop, (r,)),
        call_requires(Router::<P, F>::push, (r, chunk, now)),
        call_requires(Router::<P, F>::on_inbound_chunk::<E>, (r, translated, now)),
        call_requires(Router::<P, F>::on_outbound_chunk::<E>, (r, translated, now)),
        call_requires(Router::<P, F>::add_chunk_filter, (r, filter)),
        call_requires(Router::<P, F>::assign_ip_address, (r,)),
        call_requires(Router::<P, F>::add_nic, (r, nic, asked)),
        call_requires(Router::<P, F>::add_router, (r, nic, child)),
        call_requires(Router::<P, F>::set_parent, (r, nic)),
{
    router_is_in_order_when_its_parts_fit(*old(r));
}

/// A router that is in order takes any controller.
pub proof fn valid_router_takes_any_controller<P, F, N: NIC + ?Sized>(
    r: &mut Router<P, F>,
    id: NicId,
    nic: &N,
)
    requires
        is_valid(*old(r)),
    ensures
        call_requires(Router::<P, F>::add_net::<N>, (r, id, nic)),
{
    router_is_in_order_when_its_parts_fit(*old(r));
}

/// A router that is in order is still so after any call, and so is a child that is added to it.
pub proof fn calls_keep_a_router_in_order<P, F: Fn(&Chunk<P>) -> bool, E, N: NIC + ?Sized>(
    r: &mut Router<P, F>,
    child: &mut Router<P, F>,
    id: NicId,
    nic: &N,
    asked: &[IpAddr],
    chunk: Chunk<P>,
    translated: Result<Option<Chunk<P>>, E>,
    filter: F,
    now: Duration,
    done: Result<(), Error>,
    plan: Result<NatConfig, Error>,
    ip: Result<IpAddr, Error>,
    pushed: PushOutcome,
    inbound: InboundOutcome<E>,
    outbound: Result<Option<PushOutcome>, E>,
    processed: Processed<P>,
)
    requires
        is_valid(*old(r)),
    ensures
        call_ensures(Router::<P, F>::start, (r,), done) ==> is_valid(*final(r)),
        call_ensures(Router::<P, F>::stop, (r,), done) ==> is_valid(*final(r)),
        call_ensures(Router::<P, F>::push, (r, chunk, now), pushed) ==> is_valid(*final(r)),
        call_ensures(Router::<P, F>::on_inbound_chunk::<E>, (r, translated, now), inbound)
            ==> is_valid(*final(r)),
        call_ensures(Router::<P, F>::on_outbound_chunk::<E>, (r, translated, now), outbound)
            ==> is_valid(*final(r)),
        call_ensures(Router::<P, F>::process_chunks, (r, now), processed) ==> is_valid(*final(r)),
        call_ensures(Router::<P, F>::add_chunk_filter, (r, filter), ()) ==> is_valid(*final(r)),
        call_ensures(Router::<P, F>::assign_ip_address, (r,), ip) ==> is_valid(*final(r)),
        call_ensures(Router::<P, F>::add_nic, (r, id, asked), done) ==> is_valid(*final(r)),
        call_ensures(Router::<P, F>::add_net::<N>, (r, id, nic), done) ==> is_valid(*final(r)),
        call_ensures(Router::<P, F>::add_router, (r, id, child), done) ==> is_valid(*final(r)),
        call_ensures(Router::<P, F>::set_parent, (r, id), plan) ==> is_valid(*final(r)),
        call_ensures(Router::<P, F>::add_router, (r, id, child), done) && is_valid(*old(child))
            ==> is_valid(*final(child)),
{
    router_is_in_order_when_its_parts_fit(*final(r));
    router_is_in_order_when_its_parts_fit(*old(child));
    router_is_in_order_when_its_parts_fit(*final(child));
}

/// Static addresses can be read for any network whose prefix is no longer than its address.
pub proof fn static_addresses_can_be_read(
    net: IpNet,
    texts: &Vec<String>,
    single: &str,
    text: &str,
)
    requires
        net.prefix_len <= family_bits(net),
    ensures
        call_requires(StaticIps::read, (net, texts, single)),
        call_requires(read_entry, (text,)),
        call_requires(cut_at_slash, (text,)),
        call_requires(cidr, (text,)),
{
}

/// An entry can be added to any list whose pairs are of static addresses and local ones of the network.
pub proof fn entry_can_be_added(list: &mut StaticIps, net: IpNet, entry: Entry, ip: Option<IpAddr>)
    requires
        net.prefix_len <= family_bits(net),
        forall|k: IpAddr| #[trigger]
            old(list).locals@.dom().contains(k) ==> old(list).ips@.contains(k) && shares_prefix(
                net,
                old(list).locals@[k],
            ),
    ensures
        call_requires(StaticIps::add_entry, (list, net, entry)),
        call_requires(StaticIps::add_single, (list, ip)),
        call_requires(StaticIps::is_balanced, (&*old(list),)),
{
    assert forall|k: IpAddr| #[trigger] old(list)@.locals.dom().contains(k) implies old(
        list,
    )@.ips.contains(k) && net.has(old(list)@.locals[k]) by {
        assert(old(list).locals@.dom().contains(k));
    }
}

/// A router that is in order processes chunks, where its filters can be asked about the one that is
/// due.
pub proof fn valid_router_processes_chunks<P, F: Fn(&Chunk<P>) -> bool>(
    r: &mut Router<P, F>,
    now: Duration,
)
    requires
        is_valid(*old(r)),
        due(*old(r), now) ==> forall|n: int|
            0 <= n < old(r).chunk_filters@.len() ==> call_requires(
                #[trigger] old(r).chunk_filters@[n],
                (&old(r).queue.chunks@[0].chunk,),
            ),
    ensures
        call_requires(Router::<P, F>::process_chunks, (r, now)),
{
    router_is_in_order_when_its_parts_fit(*old(r));
}

/// Any configuration can be tried.
pub proof fn any_configuration_can_be_tried<P, F>(config: RouterConfig, ids: &mut RouterIdCounter)
    ensures
        call_requires(Router::<P, F>::new, (config, ids)),
{
}

/// A router that was made is in order.
pub proof fn made_router_is_in_order<P, F>(
    config: RouterConfig,
    ids: &mut RouterIdCounter,
    r: Router<P, F>,
)
    requires
        call_ensures(Router::<P, F>::new, (config, ids), Ok(r)),
    ensures
        is_valid(r),
{
    router_is_in_order_when_its_parts_fit(r);
}

/// An empty configuration asks for nothing.
pub proof fn default_configuration_asks_for_nothing(config: RouterConfig)
    requires
        call_ensures(<RouterConfig as Default>::default, (), config),
    ensures
        config.name@.len() == 0,
        config.cidr@.len() == 0,
        config.static_ips@.len() == 0,
        config.static_ip@.len() == 0,
        config.queue_size == 0,
        config.nat_type is None,
        config.min_delay == (Duration { secs: 0, subsec_nanos: 0 }),
        config.max_jitter == (Duration { secs: 0, subsec_nanos: 0 }),
{
}

/// A router by default has the network of all IPv4 addresses, and nothing else.
pub proof fn default_router_is_bare<P, F>(r: Router<P, F>)
    requires
        call_ensures(<Router<P, F> as Default>::default, (), r),
    ensures
        is_valid(r),
        r.name@.len() == 0,
        r.interfaces@.len() == 0,
        r.ipv4net == (IpNet { addr: IpAddr::V4(0), prefix_len: 0 }),
        r.static_ips@.len() == 0,
        forall|ip: IpAddr| !(#[trigger] r.static_local_ips@.dom().contains(ip)),
        forall|ip: IpAddr| !(#[trigger] r.nics@.dom().contains(ip)),
        r.last_id == 0,
        r.queue.chunks@.len() == 0,
        r.queue.max_size == 0,
        r.parent is None,
        r.children@.len() == 0,
        r.nat_type is None,
        !r.done,
        !r.push_ch,
        r.chunk_filters@.len() == 0,
        r.min_delay == (Duration { secs: 0, subsec_nanos: 0 }),
        r.max_jitter == (Duration { secs: 0, subsec_nanos: 0 }),
{
    router_is_in_order_when_its_parts_fit(r);
    assert(r.static_view().ips == r.static_ips@);
    assert(r.static_view().locals == r.static_local_ips@);
}

} // verus!
