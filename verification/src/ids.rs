//! The canonical packet ids and the tables that translate between them and
//! the ids of each version. The canonical id of a packet is the position of
//! its name, counted from 1, among the names of all versions, without
//! repetitions and in sorted order; 0 stands for no packet.

use vstd::prelude::*;
use itertools::Itertools;
use crate::protocol::{Packet, Version};
use crate::stream::StreamError;
use crate::version::{ProtocolVersion, PROTOCOL_VERSIONS};

verus! {

/// The names as sequences of characters.
pub open spec fn names_view(v: Seq<String>) -> Seq<Seq<char>> {
    Seq::new(v.len(), |i: int| v[i]@)
}

/// The names of the packets, in order.
pub open spec fn packet_names(packets: Seq<Packet>) -> Seq<Seq<char>> {
    Seq::new(packets.len(), |i: int| packets[i].name@)
}

/// The packets of a version in one direction.
pub open spec fn direction(v: Version, to_client: bool) -> Seq<Packet> {
    if to_client {
        v.to_client@
    } else {
        v.to_server@
    }
}

/// The names of the packets of all the versions in one direction, version
/// after version.
pub open spec fn all_names(versions: Seq<(ProtocolVersion, Version)>, to_client: bool) -> Seq<
    Seq<char>,
>
    decreases versions.len(),
{
    if versions.len() == 0 {
        Seq::empty()
    } else {
        all_names(versions.drop_last(), to_client) + packet_names(
            direction(versions.last().1, to_client),
        )
    }
}

/// The names without repetitions, each where it first occurs.
pub open spec fn dedup(s: Seq<Seq<char>>) -> Seq<Seq<char>>
    decreases s.len(),
{
    if s.len() == 0 {
        Seq::empty()
    } else {
        let d = dedup(s.drop_last());
        if d.contains(s.last()) {
            d
        } else {
            d.push(s.last())
        }
    }
}

/// [`dedup`] keeps every name, once.
pub proof fn lemma_dedup(s: Seq<Seq<char>>)
    ensures
        dedup(s).no_duplicates(),
        forall|x: Seq<char>| dedup(s).contains(x) <==> s.contains(x),
    decreases s.len(),
{
    if s.len() > 0 {
        let t = s.drop_last();
        lemma_dedup(t);
        let d = dedup(t);
        assert forall|x: Seq<char>| dedup(s).contains(x) <==> s.contains(x) by {
            if s.contains(x) {
                let i = choose|i: int| 0 <= i < s.len() && s[i] == x;
                if i < t.len() {
                    assert(t[i] == x);
                    assert(t.contains(x));
                    assert(d.contains(x));
                    let j = choose|j: int| 0 <= j < d.len() && d[j] == x;
                    assert(dedup(s)[j] == x);
                } else {
                    if !d.contains(x) {
                        assert(dedup(s)[d.len() as int] == x);
                    }
                }
            }
            if dedup(s).contains(x) {
                let j = choose|j: int| 0 <= j < dedup(s).len() && dedup(s)[j] == x;
                if j < d.len() {
                    assert(d[j] == x);
                    assert(d.contains(x));
                    assert(t.contains(x));
                    let i = choose|i: int| 0 <= i < t.len() && t[i] == x;
                    assert(s[i] == x);
                } else {
                    assert(s[s.len() - 1] == x);
                }
            }
        }
    }
}

/// Whether `a` stands before `b` or is `b`, in the order of strings: the
/// first character in which they differ decides, by its code point, and a
/// text stands before every text that it begins.
pub open spec fn text_le(a: Seq<char>, b: Seq<char>) -> bool
    decreases a.len(),
{
    if a.len() == 0 {
        true
    } else if b.len() == 0 {
        false
    } else if a[0] != b[0] {
        (a[0] as u32) < (b[0] as u32)
    } else {
        text_le(a.drop_first(), b.drop_first())
    }
}

/// Whether each name stands before the names that follow it.
pub open spec fn ascending(names: Seq<Seq<char>>) -> bool {
    forall|i: int, j: int| 0 <= i < j < names.len() ==> text_le(#[trigger] names[i], #[trigger] names[j])
}

/// Calls `Itertools::sorted` on the names and collects what it yields. The
/// contract states what sorting promises: the outcome holds the same names,
/// each as often as before, in ascending order of strings.
#[verifier::external_body]
pub(crate) fn sort_names(names: Vec<String>) -> (out: Vec<String>)
    ensures
        names_view(out@).to_multiset() == names_view(names@).to_multiset(),
        ascending(names_view(out@)),
{
    names.into_iter().sorted().collect()
}

/// Whether `names` are the canonical names for the names `all`: every name
/// of `all`, once, in ascending order of strings.
pub open spec fn is_canonical(names: Seq<Seq<char>>, all: Seq<Seq<char>>) -> bool {
    &&& ascending(names)
    &&& names.no_duplicates()
    &&& forall|x: Seq<char>| names.contains(x) <==> all.contains(x)
}

/// Two texts that stand before each other are the same text.
pub proof fn lemma_text_le_antisymmetric(a: Seq<char>, b: Seq<char>)
    requires
        text_le(a, b),
        text_le(b, a),
    ensures
        a == b,
    decreases a.len(),
{
    if a.len() == 0 {
        assert(b.len() == 0);
        assert(a =~= b);
    } else {
        assert(b.len() > 0);
        assert(a[0] == b[0]);
        lemma_text_le_antisymmetric(a.drop_first(), b.drop_first());
        assert(a =~= seq![a[0]] + a.drop_first());
        assert(b =~= seq![b[0]] + b.drop_first());
    }
}

/// The canonical names are determined by the names they are made from:
/// two lists that both hold every name once, in ascending order, are the
/// same list.
pub proof fn canonical_is_unique(s: Seq<Seq<char>>, t: Seq<Seq<char>>, all: Seq<Seq<char>>)
    requires
        is_canonical(s, all),
        is_canonical(t, all),
    ensures
        s == t,
    decreases s.len(),
{
    if s.len() == 0 {
        if t.len() > 0 {
            assert(t.contains(t[0]));
            assert(all.contains(t[0]));
            assert(s.contains(t[0]));
        }
        assert(s =~= t);
    } else {
        assert(s.contains(s[0]));
        assert(all.contains(s[0]));
        assert(t.contains(s[0]));
        let i = choose|i: int| 0 <= i < t.len() && t[i] == s[0];
        assert(t.contains(t[0]));
        assert(all.contains(t[0]));
        assert(s.contains(t[0]));
        let j = choose|j: int| 0 <= j < s.len() && s[j] == t[0];
        // each first name stands before the other
        if j > 0 {
            assert(text_le(s[0], s[j]));
        }
        if i > 0 {
            assert(text_le(t[0], t[i]));
        }
        if j == 0 {
        } else if i == 0 {
        } else {
            lemma_text_le_antisymmetric(s[0], t[0]);
        }
        assert(s[0] == t[0]);
        let s1 = s.drop_first();
        let t1 = t.drop_first();
        assert forall|x: Seq<char>| s1.contains(x) <==> t1.contains(x) by {
            if s1.contains(x) {
                let k = choose|k: int| 0 <= k < s1.len() && s1[k] == x;
                assert(s[k + 1] == x);
                assert(s.contains(x));
                assert(x != s[0]);
                assert(t.contains(x));
                let m = choose|m: int| 0 <= m < t.len() && t[m] == x;
                assert(m != 0);
                assert(t1[m - 1] == x);
            }
            if t1.contains(x) {
                let k = choose|k: int| 0 <= k < t1.len() && t1[k] == x;
                assert(t[k + 1] == x);
                assert(t.contains(x));
                assert(x != t[0]);
                assert(s.contains(x));
                let m = choose|m: int| 0 <= m < s.len() && s[m] == x;
                assert(m != 0);
                assert(s1[m - 1] == x);
            }
        }
        assert(ascending(s1)) by {
            assert forall|a: int, b: int| 0 <= a < b < s1.len() implies text_le(
                #[trigger] s1[a],
                #[trigger] s1[b],
            ) by {
                assert(text_le(s[a + 1], s[b + 1]));
            }
        }
        assert(ascending(t1)) by {
            assert forall|a: int, b: int| 0 <= a < b < t1.len() implies text_le(
                #[trigger] t1[a],
                #[trigger] t1[b],
            ) by {
                assert(text_le(t[a + 1], t[b + 1]));
            }
        }
        assert(s1.no_duplicates()) by {
            assert forall|a: int, b: int| 0 <= a < s1.len() && 0 <= b < s1.len() && a != b implies s1[a]
                != s1[b] by {
                assert(s[a + 1] != s[b + 1]);
            }
        }
        assert(t1.no_duplicates()) by {
            assert forall|a: int, b: int| 0 <= a < t1.len() && 0 <= b < t1.len() && a != b implies t1[a]
                != t1[b] by {
                assert(t[a + 1] != t[b + 1]);
            }
        }
        canonical_is_unique(s1, t1, s1);
        assert(s =~= seq![s[0]] + s1);
        assert(t =~= seq![t[0]] + t1);
    }
}

/// The first position from `i` on at which `name` stands, or -1.
pub open spec fn first_index(names: Seq<Seq<char>>, name: Seq<char>, i: int) -> int
    decreases names.len() - i,
{
    if i < 0 || i >= names.len() {
        -1
    } else if names[i] == name {
        i
    } else {
        first_index(names, name, i + 1)
    }
}

/// The canonical id of `name`: its position among `names`, counted from 1,
/// or 0 where it is not among them.
pub open spec fn spec_canonical_id(names: Seq<Seq<char>>, name: Seq<char>) -> int {
    first_index(names, name, 0) + 1
}

/// A canonical id other than 0 is the position of the name.
pub proof fn lemma_first_index(names: Seq<Seq<char>>, name: Seq<char>, i: int)
    requires
        0 <= i,
    ensures
        -1 <= first_index(names, name, i) < names.len(),
        first_index(names, name, i) >= 0 ==> first_index(names, name, i) >= i && names[first_index(
            names,
            name,
            i,
        )] == name,
        first_index(names, name, i) == -1 ==> forall|j: int|
            i <= j < names.len() ==> names[j] != name,
    decreases names.len() - i,
{
    if i < names.len() && names[i] != name {
        lemma_first_index(names, name, i + 1);
    }
}

/// Whether `name` is among `names`.
pub fn has_name(names: &Vec<String>, name: &String) -> (r: bool)
    ensures
        r == names_view(names@).contains(name@),
{
    let mut i: usize = 0;
    while i < names.len()
        invariant
            i <= names@.len(),
            forall|j: int| 0 <= j < i ==> names_view(names@)[j] != name@,
        decreases names@.len() - i,
    {
        if names[i] == *name {
            assert(names_view(names@)[i as int] == name@);
            return true;
        }
        i += 1;
    }
    false
}

/// The canonical id of `name` (see [`spec_canonical_id`]).
pub fn canonical_id(names: &Vec<String>, name: &String) -> (id: usize)
    ensures
        id == spec_canonical_id(names_view(names@), name@),
        id <= names@.len(),
{
    let mut i: usize = 0;
    let ghost view = names_view(names@);
    while i < names.len()
        invariant
            i <= names@.len(),
            view == names_view(names@),
            first_index(view, name@, 0) == first_index(view, name@, i as int),
        decreases names@.len() - i,
    {
        if names[i] == *name {
            assert(view[i as int] == name@);
            return i + 1;
        }
        assert(view[i as int] != name@);
        i += 1;
    }
    0
}

/// The names of the packets of all the versions in one direction, without
/// repetitions, each where it first occurs.
pub fn collect_names(versions: &Vec<(ProtocolVersion, Version)>, to_client: bool) -> (out: Vec<
    String,
>)
    ensures
        names_view(out@) == dedup(all_names(versions@, to_client)),
{
    let mut out: Vec<String> = Vec::new();
    let mut v: usize = 0;
    assert(versions@.take(0) =~= Seq::empty());
    assert(names_view(out@) =~= dedup(all_names(versions@.take(0), to_client)));
    while v < versions.len()
        invariant
            v <= versions@.len(),
            names_view(out@) == dedup(all_names(versions@.take(v as int), to_client)),
        decreases versions@.len() - v,
    {
        let packets = if to_client {
            &versions[v].1.to_client
        } else {
            &versions[v].1.to_server
        };
        let ghost base = all_names(versions@.take(v as int), to_client);
        let mut p: usize = 0;
        assert(base + packet_names(packets@).take(0) =~= base);
        while p < packets.len()
            invariant
                p <= packets@.len(),
                names_view(out@) == dedup(base + packet_names(packets@).take(p as int)),
            decreases packets@.len() - p,
        {
            let name = packets[p].name.clone();
            let ghost seen = base + packet_names(packets@).take(p as int);
            let ghost seen2 = base + packet_names(packets@).take(p + 1);
            proof {
                assert(seen2.drop_last() =~= seen);
                assert(seen2.last() == name@);
            }
            if !has_name(&out, &name) {
                let ghost before = names_view(out@);
                out.push(name);
                assert(names_view(out@) =~= before.push(name@));
            }
            p += 1;
        }
        proof {
            let next = versions@.take(v + 1);
            assert(next.drop_last() =~= versions@.take(v as int));
            assert(next.last() == versions@[v as int]);
            assert(packet_names(packets@).take(packets@.len() as int) =~= packet_names(packets@));
        }
        v += 1;
    }
    assert(versions@.take(versions@.len() as int) =~= versions@);
    out
}

/// The canonical names of one direction: the names of all versions without
/// repetitions, sorted. Every name of every version is among them, once.
pub fn canonical_names(versions: &Vec<(ProtocolVersion, Version)>, to_client: bool) -> (out: Vec<
    String,
>)
    ensures
        is_canonical(names_view(out@), all_names(versions@, to_client)),
{
    let collected = collect_names(versions, to_client);
    let ghost before = names_view(collected@);
    let out = sort_names(collected);
    proof {
        let after = names_view(out@);
        lemma_dedup(all_names(versions@, to_client));
        before.lemma_multiset_has_no_duplicates();
        after.lemma_multiset_has_no_duplicates_conv();
        before.to_multiset_ensures();
        after.to_multiset_ensures();
        assert forall|x: Seq<char>| after.contains(x) <==> before.contains(x) by {
            assert(after.to_multiset().count(x) == before.to_multiset().count(x));
        }
    }
    out
}

/// Whether `ids` is the table from canonical ids to ids on the wire for the
/// first `k` of `packets`: an entry names the last packet with that
/// canonical id, there is none where no packet has it, and the table ends
/// with the largest canonical id that occurs.
pub open spec fn is_ids_table(
    ids: Seq<Option<usize>>,
    packets: Seq<Packet>,
    names: Seq<Seq<char>>,
    k: int,
) -> bool {
    &&& forall|c: int|
        0 <= c < ids.len() ==> match #[trigger] ids[c] {
            Some(w) => w < k && spec_canonical_id(names, packets[w as int].name@) == c && forall|
                j: int,
            |
                w < j < k ==> spec_canonical_id(names, #[trigger] packets[j].name@) != c,
            None => forall|j: int|
                0 <= j < k ==> spec_canonical_id(names, #[trigger] packets[j].name@) != c,
        }
    &&& forall|j: int|
        0 <= j < k ==> spec_canonical_id(names, #[trigger] packets[j].name@) < ids.len()
    &&& (ids.len() == 0 || exists|j: int|
        0 <= j < k && spec_canonical_id(names, #[trigger] packets[j].name@) == ids.len() - 1)
}

/// Whether `wire` is the table from ids on the wire to canonical ids: for
/// each packet its canonical id, or `None` where its name has none.
pub open spec fn is_wire_table(
    wire: Seq<Option<usize>>,
    packets: Seq<Packet>,
    names: Seq<Seq<char>>,
) -> bool {
    &&& wire.len() == packets.len()
    &&& forall|w: int|
        0 <= w < wire.len() ==> #[trigger] wire[w] == if spec_canonical_id(
            names,
            packets[w].name@,
        ) == 0 {
            None::<usize>
        } else {
            Some(spec_canonical_id(names, packets[w].name@) as usize)
        }
}

/// The table from canonical ids to ids on the wire (see [`is_ids_table`]).
pub fn generate_ids(packets: &Vec<Packet>, names: &Vec<String>) -> (ids: Vec<Option<usize>>)
    ensures
        is_ids_table(ids@, packets@, names_view(names@), packets@.len() as int),
{
    let mut ids: Vec<Option<usize>> = Vec::new();
    let ghost view = names_view(names@);
    let mut i: usize = 0;
    while i < packets.len()
        invariant
            i <= packets@.len(),
            view == names_view(names@),
            is_ids_table(ids@, packets@, view, i as int),
        decreases packets@.len() - i,
    {
        let new_id = canonical_id(names, &packets[i].name);
        let ghost before = ids@;
        let ghost grew = new_id >= ids@.len();
        while ids.len() <= new_id
            invariant
                ids@.len() >= before.len(),
                grew == (new_id >= before.len()),
                grew ==> ids@.len() <= new_id + 1,
                !grew ==> ids@ == before,
                forall|c: int| 0 <= c < before.len() ==> ids@[c] == before[c],
                forall|c: int| before.len() <= c < ids@.len() ==> ids@[c].is_none(),
            decreases new_id + 1 - ids@.len(),
        {
            ids.push(None);
        }
        let ghost padded = ids@;
        ids.set(new_id, Some(i));
        proof {
            assert forall|c: int| 0 <= c < ids@.len() implies match #[trigger] ids@[c] {
                Some(w) => w < i + 1 && spec_canonical_id(view, packets@[w as int].name@) == c
                    && forall|j: int|
                    w < j < i + 1 ==> spec_canonical_id(view, #[trigger] packets@[j].name@) != c,
                None => forall|j: int|
                    0 <= j < i + 1 ==> spec_canonical_id(view, #[trigger] packets@[j].name@) != c,
            } by {
                if c != new_id {
                    if c < before.len() {
                        assert(ids@[c] == before[c]);
                    } else {
                        assert(ids@[c].is_none());
                    }
                }
            }
            if grew {
                assert(spec_canonical_id(view, packets@[i as int].name@) == ids@.len() - 1);
            } else {
                let j = choose|j: int|
                    0 <= j < i && spec_canonical_id(view, #[trigger] packets@[j].name@)
                        == before.len() - 1;
                assert(spec_canonical_id(view, packets@[j].name@) == ids@.len() - 1);
            }
        }
        i += 1;
    }
    ids
}

/// The table from ids on the wire to canonical ids (see [`is_wire_table`]).
pub fn generate_wire(packets: &Vec<Packet>, names: &Vec<String>) -> (wire: Vec<Option<usize>>)
    ensures
        is_wire_table(wire@, packets@, names_view(names@)),
{
    let mut wire: Vec<Option<usize>> = Vec::new();
    let mut i: usize = 0;
    while i < packets.len()
        invariant
            i <= packets@.len(),
            wire@.len() == i,
            forall|w: int|
                0 <= w < i ==> #[trigger] wire@[w] == if spec_canonical_id(
                    names_view(names@),
                    packets@[w].name@,
                ) == 0 {
                    None::<usize>
                } else {
                    Some(spec_canonical_id(names_view(names@), packets@[w].name@) as usize)
                },
        decreases packets@.len() - i,
    {
        let c = canonical_id(names, &packets[i].name);
        if c == 0 {
            wire.push(None);
        } else {
            wire.push(Some(c));
        }
        i += 1;
    }
    wire
}

/// For every canonical id that a version has, going to the id on the wire
/// and back gives the canonical id.
pub proof fn version_translation_identity(
    ids: Seq<Option<usize>>,
    wire: Seq<Option<usize>>,
    packets: Seq<Packet>,
    names: Seq<Seq<char>>,
    c: int,
)
    requires
        is_ids_table(ids, packets, names, packets.len() as int),
        is_wire_table(wire, packets, names),
        1 <= c < ids.len(),
        ids[c].is_some(),
    ensures
        ids[c].unwrap() < wire.len(),
        wire[ids[c].unwrap() as int] == Some(c as usize),
{
}

/// The tables of one version in one direction.
#[derive(Debug)]
pub struct PacketVersion {
    /// By canonical id: the id on the wire, or `None` where the version
    /// does not have the packet.
    pub ids: Vec<Option<usize>>,
    /// By id on the wire: the canonical id.
    pub wire: Vec<Option<usize>>,
    pub packets: Vec<Packet>,
}

impl PacketVersion {
    /// Whether the two tables are those of the version's packets.
    pub open spec fn wf(self, names: Seq<Seq<char>>) -> bool {
        &&& is_ids_table(self.ids@, self.packets@, names, self.packets@.len() as int)
        &&& is_wire_table(self.wire@, self.packets@, names)
    }

    /// The tables for `packets`.
    pub fn new(packets: Vec<Packet>, names: &Vec<String>) -> (v: PacketVersion)
        ensures
            v.wf(names_view(names@)),
            v.packets == packets,
    {
        let ids = generate_ids(&packets, names);
        let wire = generate_wire(&packets, names);
        PacketVersion { ids, wire, packets }
    }

    /// The id on the wire of the packet with canonical id `c`, or `None`
    /// where the version does not have it.
    pub fn to_wire(&self, c: usize) -> (r: Option<usize>)
        ensures
            r == if c < self.ids@.len() {
                self.ids@[c as int]
            } else {
                None
            },
    {
        if c < self.ids.len() {
            self.ids[c]
        } else {
            None
        }
    }

    /// The canonical id of the packet with id `w` on the wire, or `None`
    /// where the version has no such packet.
    pub fn to_canonical(&self, w: usize) -> (r: Option<usize>)
        ensures
            r == if w < self.wire@.len() {
                self.wire@[w as int]
            } else {
                None
            },
    {
        if w < self.wire.len() {
            self.wire[w]
        } else {
            None
        }
    }
}

/// The version whose tables `v` uses: the versions after 1.16 share those
/// of 1.16.2.
pub open spec fn spec_tables_of(v: ProtocolVersion) -> ProtocolVersion {
    match v {
        ProtocolVersion::V1_16
        | ProtocolVersion::V1_16_1
        | ProtocolVersion::V1_16_3
        | ProtocolVersion::V1_16_5 => ProtocolVersion::V1_16_2,
        _ => v,
    }
}

#[verifier::when_used_as_spec(spec_tables_of)]
pub fn tables_of(v: ProtocolVersion) -> (r: ProtocolVersion)
    ensures
        r == spec_tables_of(v),
{
    match v {
        ProtocolVersion::V1_16
        | ProtocolVersion::V1_16_1
        | ProtocolVersion::V1_16_3
        | ProtocolVersion::V1_16_5 => ProtocolVersion::V1_16_2,
        _ => v,
    }
}

/// The packet tables of every version, in both directions.
#[derive(Debug)]
pub struct Generator {
    /// The canonical names of the packets to the client.
    pub cb_names: Vec<String>,
    /// The canonical names of the packets to the server.
    pub sb_names: Vec<String>,
    /// By [`ProtocolVersion::spec_index`]: the tables to the client.
    pub cb: Vec<Option<PacketVersion>>,
    /// By [`ProtocolVersion::spec_index`]: the tables to the server.
    pub sb: Vec<Option<PacketVersion>>,
}

/// Whether every table in `tables` is that of its packets.
pub open spec fn tables_wf(tables: Seq<Option<PacketVersion>>, names: Seq<Seq<char>>) -> bool {
    &&& tables.len() == PROTOCOL_VERSIONS
    &&& forall|i: int|
        0 <= i < tables.len() ==> match #[trigger] tables[i] {
            Some(t) => t.wf(names),
            None => true,
        }
}

/// Sixteen empty slots.
fn no_tables() -> (t: Vec<Option<PacketVersion>>)
    ensures
        t@.len() == PROTOCOL_VERSIONS,
        forall|i: int| 0 <= i < t@.len() ==> t@[i].is_none(),
{
    let mut t: Vec<Option<PacketVersion>> = Vec::new();
    let mut i: usize = 0;
    while i < PROTOCOL_VERSIONS
        invariant
            i <= PROTOCOL_VERSIONS,
            t@.len() == i,
            forall|j: int| 0 <= j < i ==> t@[j].is_none(),
        decreases PROTOCOL_VERSIONS - i,
    {
        t.push(None);
        i += 1;
    }
    t
}

/// Puts `table` into the slot `at`.
fn put_table(tables: &mut Vec<Option<PacketVersion>>, at: usize, table: PacketVersion)
    requires
        at < old(tables)@.len(),
    ensures
        final(tables)@ == old(tables)@.update(at as int, Some(table)),
{
    let _ = tables.remove(at);
    tables.insert(at, Some(table));
    assert(tables@ =~= old(tables)@.update(at as int, Some(table)));
}

impl Generator {
    pub open spec fn wf(self) -> bool {
        &&& tables_wf(self.cb@, names_view(self.cb_names@))
        &&& tables_wf(self.sb@, names_view(self.sb_names@))
    }

    /// The tables for the given versions. The canonical names are those of
    /// all the versions given; where a version is given twice, the later
    /// description counts.
    pub fn new(versions: Vec<(ProtocolVersion, Version)>) -> (g: Generator)
        ensures
            g.wf(),
            is_canonical(names_view(g.cb_names@), all_names(versions@, true)),
            is_canonical(names_view(g.sb_names@), all_names(versions@, false)),
            forall|i: int|
                0 <= i < PROTOCOL_VERSIONS ==> (g.cb@[i].is_some() <==> exists|k: int|
                    0 <= k < versions@.len() && (#[trigger] versions@[k]).0.spec_index() == i),
            forall|i: int|
                0 <= i < PROTOCOL_VERSIONS ==> (g.sb@[i].is_some() <==> exists|k: int|
                    0 <= k < versions@.len() && (#[trigger] versions@[k]).0.spec_index() == i),
            forall|k: int|
                0 <= k < versions@.len() && (forall|j: int|
                    k < j < versions@.len() ==> (#[trigger] versions@[j]).0 != versions@[k].0)
                    ==> g.cb@[(#[trigger] versions@[k]).0.spec_index()].unwrap().packets
                    == versions@[k].1.to_client && g.sb@[versions@[k].0.spec_index()].unwrap().packets
                    == versions@[k].1.to_server,
    {
        let cb_names = canonical_names(&versions, true);
        let sb_names = canonical_names(&versions, false);
        let mut cb = no_tables();
        let mut sb = no_tables();
        let mut versions = versions;
        let ghost all = versions@;
        proof {
            ProtocolVersion::index_injective();
        }
        while versions.len() > 0
            invariant
                versions@.len() <= all.len(),
                versions@ == all.take(versions@.len() as int),
                tables_wf(cb@, names_view(cb_names@)),
                tables_wf(sb@, names_view(sb_names@)),
                forall|i: int|
                    0 <= i < PROTOCOL_VERSIONS ==> (cb@[i].is_some() <==> exists|k: int|
                        versions@.len() <= k < all.len() && (#[trigger] all[k]).0.spec_index() == i),
                forall|i: int|
                    0 <= i < PROTOCOL_VERSIONS ==> (sb@[i].is_some() <==> exists|k: int|
                        versions@.len() <= k < all.len() && (#[trigger] all[k]).0.spec_index() == i),
                forall|k: int|
                    versions@.len() <= k < all.len() && (forall|j: int|
                        k < j < all.len() ==> (#[trigger] all[j]).0 != all[k].0) ==> cb@[(
                    #[trigger] all[k]).0.spec_index()].unwrap().packets == all[k].1.to_client
                        && sb@[all[k].0.spec_index()].unwrap().packets == all[k].1.to_server,
            decreases versions@.len(),
        {
            let ghost n = versions@.len() - 1;
            let entry = versions.pop().unwrap();
            let at = entry.0.to_index();
            let ghost cb0 = cb@;
            let ghost sb0 = sb@;
            proof {
                assert(entry == all[n]);
                assert(versions@ =~= all.take(n));
                ProtocolVersion::index_injective();
            }
            if cb[at].is_none() {
                let to_client = PacketVersion::new(entry.1.to_client, &cb_names);
                let to_server = PacketVersion::new(entry.1.to_server, &sb_names);
                put_table(&mut cb, at, to_client);
                put_table(&mut sb, at, to_server);
                proof {
                    assert(sb0[at as int].is_none()) by {
                        if sb0[at as int].is_some() {
                            let k = choose|k: int|
                                n + 1 <= k < all.len() && (#[trigger] all[k]).0.spec_index() == at;
                            assert(cb0[at as int].is_some());
                        }
                    }
                    assert forall|k: int|
                        n <= k < all.len() && (forall|j: int|
                            k < j < all.len() ==> (#[trigger] all[j]).0 != all[k].0) implies cb@[(
                    #[trigger] all[k]).0.spec_index()].unwrap().packets == all[k].1.to_client
                        && sb@[all[k].0.spec_index()].unwrap().packets == all[k].1.to_server by {
                        if k > n {
                            if all[k].0.spec_index() == at {
                                assert(cb0[at as int].is_some());
                            }
                        }
                    }
                }
            } else {
                proof {
                    let k0 = choose|k: int|
                        n + 1 <= k < all.len() && (#[trigger] all[k]).0.spec_index() == at;
                    assert(all[k0].0 == all[n].0);
                    assert(sb0[at as int].is_some());
                }
            }
            proof {
                assert forall|i: int| 0 <= i < PROTOCOL_VERSIONS implies (cb@[i].is_some()
                    <==> exists|k: int|
                    n <= k < all.len() && (#[trigger] all[k]).0.spec_index() == i) by {
                    if cb@[i].is_some() {
                        if i == at {
                            assert(all[n].0.spec_index() == i);
                        } else {
                            assert(cb0[i].is_some());
                            let k = choose|k: int|
                                n + 1 <= k < all.len() && (#[trigger] all[k]).0.spec_index() == i;
                            assert(n <= k < all.len() && all[k].0.spec_index() == i);
                        }
                    }
                    if exists|k: int| n <= k < all.len() && (#[trigger] all[k]).0.spec_index() == i {
                        let k = choose|k: int|
                            n <= k < all.len() && (#[trigger] all[k]).0.spec_index() == i;
                        if k > n {
                            assert(cb0[i].is_some());
                        }
                    }
                }
                assert forall|i: int| 0 <= i < PROTOCOL_VERSIONS implies (sb@[i].is_some()
                    <==> exists|k: int|
                    n <= k < all.len() && (#[trigger] all[k]).0.spec_index() == i) by {
                    if sb@[i].is_some() {
                        if i == at {
                            assert(all[n].0.spec_index() == i);
                        } else {
                            assert(sb0[i].is_some());
                            let k = choose|k: int|
                                n + 1 <= k < all.len() && (#[trigger] all[k]).0.spec_index() == i;
                            assert(n <= k < all.len() && all[k].0.spec_index() == i);
                        }
                    }
                    if exists|k: int| n <= k < all.len() && (#[trigger] all[k]).0.spec_index() == i {
                        let k = choose|k: int|
                            n <= k < all.len() && (#[trigger] all[k]).0.spec_index() == i;
                        if k > n {
                            assert(sb0[i].is_some());
                        }
                    }
                }
            }
        }
        assert(all.take(all.len() as int) =~= all);
        Generator { cb_names, sb_names, cb, sb }
    }

    /// The packet for a client on version `v` that carries `body` as the
    /// packet with canonical id `canonical`: one packet with the version's
    /// id for it; none where the version does not have the packet, which is
    /// then dropped; and the error where there are no tables for the
    /// version, or the id is too large to be written.
    pub fn clientbound(&self, v: ProtocolVersion, canonical: usize, body: Vec<u8>) -> (r: Result<
        Vec<crate::stream::Packet>,
        StreamError,
    >)
        requires
            self.wf(),
        ensures
            match self.cb@[spec_tables_of(v).spec_index()] {
                None => r == Err::<Vec<crate::stream::Packet>, StreamError>(
                    StreamError::InvalidData,
                ),
                Some(t) => match (if canonical < t.ids@.len() {
                    t.ids@[canonical as int]
                } else {
                    None
                }) {
                    Some(w) => if w <= i32::MAX {
                        r matches Ok(out) && out@.len() == 1 && out@[0].id == w && out@[0].data
                            == body
                    } else {
                        r == Err::<Vec<crate::stream::Packet>, StreamError>(StreamError::InvalidData)
                    },
                    None => r matches Ok(out) && out@.len() == 0,
                },
            },
    {
        let at = tables_of(v).to_index();
        match &self.cb[at] {
            None => Err(StreamError::InvalidData),
            Some(t) => {
                let mut out: Vec<crate::stream::Packet> = Vec::new();
                match t.to_wire(canonical) {
                    Some(w) => {
                        if w <= i32::MAX as usize {
                            out.push(crate::stream::Packet { id: w as i32, data: body });
                            Ok(out)
                        } else {
                            Err(StreamError::InvalidData)
                        }
                    },
                    None => Ok(out),
                }
            },
        }
    }

    /// The canonical id of a packet that a client on version `v` sent, with
    /// its body; the error where the version has no packet with that id, or
    /// there are no tables for the version.
    pub fn serverbound(&self, v: ProtocolVersion, p: crate::stream::Packet) -> (r: Result<
        (usize, Vec<u8>),
        StreamError,
    >)
        requires
            self.wf(),
        ensures
            match self.sb@[spec_tables_of(v).spec_index()] {
                None => r == Err::<(usize, Vec<u8>), StreamError>(StreamError::InvalidData),
                Some(t) => if 0 <= p.id < t.wire@.len() && t.wire@[p.id as int].is_some() {
                    r == Ok::<(usize, Vec<u8>), StreamError>((t.wire@[p.id as int].unwrap(), p.data))
                } else {
                    r == Err::<(usize, Vec<u8>), StreamError>(StreamError::InvalidData)
                },
            },
    {
        let at = tables_of(v).to_index();
        match &self.sb[at] {
            None => Err(StreamError::InvalidData),
            Some(t) => {
                if p.id < 0 {
                    return Err(StreamError::InvalidData);
                }
                match t.to_canonical(p.id as usize) {
                    Some(c) => Ok((c, p.data)),
                    None => Err(StreamError::InvalidData),
                }
            },
        }
    }
}

} // verus!
