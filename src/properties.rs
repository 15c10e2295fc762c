use vstd::prelude::*;

verus! {

/// The map that a list of key/value entries describes; a later entry for a
/// key overrides an earlier one.
pub open spec fn keyed_map<K, V>(s: Seq<(K, V)>) -> Map<K, V>
    decreases s.len(),
{
    if s.len() == 0 {
        Map::empty()
    } else {
        keyed_map(s.drop_last()).insert(s.last().0, s.last().1)
    }
}

/// No key occurs twice in the list.
pub open spec fn unique_keys<K, V>(s: Seq<(K, V)>) -> bool {
    forall|i: int, j: int| 0 <= i < j < s.len() ==> #[trigger] s[i].0 != #[trigger] s[j].0
}

/// Entries whose byte values are seen as sequences.
pub open spec fn bytes_entries<K>(s: Seq<(K, Vec<u8>)>) -> Seq<(K, Seq<u8>)> {
    s.map_values(|e: (K, Vec<u8>)| (e.0, e.1@))
}

/// The set of values that a list holds.
pub open spec fn seq_set(s: Seq<u128>) -> Set<u128> {
    Set::new(|u: u128| s.contains(u))
}

/// Appending a value adds it to the set.
proof fn lemma_seq_set_push(s: Seq<u128>, u: u128)
    ensures
        seq_set(s.push(u)) == seq_set(s).insert(u),
{
    assert forall|x: u128| #[trigger] seq_set(s.push(u)).contains(x) <==> seq_set(s).insert(u).contains(x) by {
        if s.contains(x) {
            let a = choose|a: int| 0 <= a < s.len() && s[a] == x;
            assert(s.push(u)[a] == x);
        }
        if x == u {
            assert(s.push(u)[s.len() as int] == u);
        }
        if s.push(u).contains(x) && x != u {
            let a = choose|a: int| 0 <= a < s.len() + 1 && s.push(u)[a] == x;
            assert(s[a] == x);
        }
    }
    assert(seq_set(s.push(u)) =~= seq_set(s).insert(u));
}

/// Replacing the value of an entry in a list with unique keys replaces it in the map.
pub proof fn lemma_keyed_update<K, V>(s: Seq<(K, V)>, i: int, v: V)
    requires
        unique_keys(s),
        0 <= i < s.len(),
    ensures
        keyed_map(s.update(i, (s[i].0, v))) == keyed_map(s).insert(s[i].0, v),
        unique_keys(s.update(i, (s[i].0, v))),
    decreases s.len(),
{
    let k = s[i].0;
    let t = s.update(i, (k, v));
    assert(unique_keys(t)) by {
        assert forall|a: int, b: int| 0 <= a < b < t.len() implies #[trigger] t[a].0 != #[trigger] t[b].0 by {
            assert(t[a].0 == s[a].0 && t[b].0 == s[b].0);
        }
    }
    if i == s.len() - 1 {
        assert(t.drop_last() =~= s.drop_last());
        assert(keyed_map(t) =~= keyed_map(s).insert(k, v));
    } else {
        let l = s.last();
        assert(t.drop_last() =~= s.drop_last().update(i, (k, v)));
        assert(s.drop_last()[i].0 == k);
        lemma_keyed_update(s.drop_last(), i, v);
        assert(l.0 != k);
        assert(t.last() == l);
        assert(keyed_map(t) =~= keyed_map(s).insert(k, v));
    }
}

/// Appending an entry inserts it into the map.
pub proof fn lemma_keyed_push<K, V>(s: Seq<(K, V)>, e: (K, V))
    ensures
        keyed_map(s.push(e)) == keyed_map(s).insert(e.0, e.1),
{
    assert(s.push(e).drop_last() =~= s);
}

/// Sets `k` to `d` in a list with unique keys, keeping the keys unique.
fn upsert_u16(v: &mut Vec<(u16, Vec<u8>)>, k: u16, d: Vec<u8>)
    requires
        unique_keys(bytes_entries(old(v)@)),
    ensures
        unique_keys(bytes_entries(final(v)@)),
        keyed_map(bytes_entries(final(v)@)) == keyed_map(bytes_entries(old(v)@)).insert(k, d@),
{
    let ghost s0 = bytes_entries(v@);
    let mut i: usize = 0;
    while i < v.len()
        invariant
            i <= v@.len(),
            v@ == old(v)@,
            s0 == bytes_entries(v@),
            unique_keys(s0),
            forall|j: int| 0 <= j < i ==> (#[trigger] v@[j]).0 != k,
        decreases v@.len() - i,
    {
        if v[i].0 == k {
            let ghost dv = d@;
            v.set(i, (k, d));
            proof {
                assert(bytes_entries(v@) =~= s0.update(i as int, (k, dv)));
                lemma_keyed_update(s0, i as int, dv);
            }
            return;
        }
        i = i + 1;
    }
    let ghost dv = d@;
    v.push((k, d));
    proof {
        assert(bytes_entries(v@) =~= s0.push((k, dv)));
        lemma_keyed_push(s0, (k, dv));
        let t = bytes_entries(v@);
        assert forall|a: int, b: int| 0 <= a < b < t.len() implies #[trigger] t[a].0 != #[trigger] t[b].0 by {
            if b < s0.len() {
                assert(t[a] == s0[a] && t[b] == s0[b]);
            } else {
                assert(old(v)@[a].0 != k);
            }
        }
    }
}

/// Sets `k` to `d` in a list with unique keys, keeping the keys unique.
fn upsert_u128(v: &mut Vec<(u128, Vec<u8>)>, k: u128, d: Vec<u8>)
    requires
        unique_keys(bytes_entries(old(v)@)),
    ensures
        unique_keys(bytes_entries(final(v)@)),
        keyed_map(bytes_entries(final(v)@)) == keyed_map(bytes_entries(old(v)@)).insert(k, d@),
{
    let ghost s0 = bytes_entries(v@);
    let mut i: usize = 0;
    while i < v.len()
        invariant
            i <= v@.len(),
            v@ == old(v)@,
            s0 == bytes_entries(v@),
            unique_keys(s0),
            forall|j: int| 0 <= j < i ==> (#[trigger] v@[j]).0 != k,
        decreases v@.len() - i,
    {
        if v[i].0 == k {
            let ghost dv = d@;
            v.set(i, (k, d));
            proof {
                assert(bytes_entries(v@) =~= s0.update(i as int, (k, dv)));
                lemma_keyed_update(s0, i as int, dv);
            }
            return;
        }
        i = i + 1;
    }
    let ghost dv = d@;
    v.push((k, d));
    proof {
        assert(bytes_entries(v@) =~= s0.push((k, dv)));
        lemma_keyed_push(s0, (k, dv));
        let t = bytes_entries(v@);
        assert forall|a: int, b: int| 0 <= a < b < t.len() implies #[trigger] t[a].0 != #[trigger] t[b].0 by {
            if b < s0.len() {
                assert(t[a] == s0[a] && t[b] == s0[b]);
            } else {
                assert(old(v)@[a].0 != k);
            }
        }
    }
}

fn copy_bytes(v: &Vec<u8>) -> (r: Vec<u8>)
    ensures
        r@ == v@,
{
    let r = v.clone();
    assert(r@ =~= v@);
    r
}

/// Merges `src` into `dst`: every key of `src` takes its value from `src`,
/// every other key of `dst` keeps its value.
fn merge_entries_u16(dst: &mut Vec<(u16, Vec<u8>)>, src: &Vec<(u16, Vec<u8>)>)
    requires
        unique_keys(bytes_entries(old(dst)@)),
    ensures
        unique_keys(bytes_entries(final(dst)@)),
        keyed_map(bytes_entries(final(dst)@)) == keyed_map(bytes_entries(old(dst)@)).union_prefer_right(
            keyed_map(bytes_entries(src@)),
        ),
{
    let ghost m0 = keyed_map(bytes_entries(dst@));
    let mut j: usize = 0;
    while j < src.len()
        invariant
            j <= src@.len(),
            unique_keys(bytes_entries(dst@)),
            keyed_map(bytes_entries(dst@)) == m0.union_prefer_right(keyed_map(bytes_entries(src@).take(j as int))),
        decreases src@.len() - j,
    {
        let k = src[j].0;
        let d = copy_bytes(&src[j].1);
        upsert_u16(dst, k, d);
        proof {
            let t = bytes_entries(src@);
            assert(t.take(j + 1).drop_last() =~= t.take(j as int));
            assert(keyed_map(bytes_entries(dst@)) =~= m0.union_prefer_right(keyed_map(t.take(j + 1))));
        }
        j = j + 1;
    }
    assert(bytes_entries(src@).take(src@.len() as int) =~= bytes_entries(src@));
}

/// Merges `src` into `dst`: every key of `src` takes its value from `src`,
/// every other key of `dst` keeps its value.
fn merge_entries_u128(dst: &mut Vec<(u128, Vec<u8>)>, src: &Vec<(u128, Vec<u8>)>)
    requires
        unique_keys(bytes_entries(old(dst)@)),
    ensures
        unique_keys(bytes_entries(final(dst)@)),
        keyed_map(bytes_entries(final(dst)@)) == keyed_map(bytes_entries(old(dst)@)).union_prefer_right(
            keyed_map(bytes_entries(src@)),
        ),
{
    let ghost m0 = keyed_map(bytes_entries(dst@));
    let mut j: usize = 0;
    while j < src.len()
        invariant
            j <= src@.len(),
            unique_keys(bytes_entries(dst@)),
            keyed_map(bytes_entries(dst@)) == m0.union_prefer_right(keyed_map(bytes_entries(src@).take(j as int))),
        decreases src@.len() - j,
    {
        let k = src[j].0;
        let d = copy_bytes(&src[j].1);
        upsert_u128(dst, k, d);
        proof {
            let t = bytes_entries(src@);
            assert(t.take(j + 1).drop_last() =~= t.take(j as int));
            assert(keyed_map(bytes_entries(dst@)) =~= m0.union_prefer_right(keyed_map(t.take(j + 1))));
        }
        j = j + 1;
    }
    assert(bytes_entries(src@).take(src@.len() as int) =~= bytes_entries(src@));
}

/// Adds to `dst` each value of `src` that it does not hold yet.
fn merge_services(dst: &mut Vec<u128>, src: &Vec<u128>)
    requires
        old(dst)@.no_duplicates(),
    ensures
        final(dst)@.no_duplicates(),
        seq_set(final(dst)@) == seq_set(old(dst)@) + seq_set(src@),
{
    let ghost s0 = seq_set(dst@);
    let mut j: usize = 0;
    while j < src.len()
        invariant
            j <= src@.len(),
            dst@.no_duplicates(),
            seq_set(dst@) == s0 + seq_set(src@.take(j as int)),
        decreases src@.len() - j,
    {
        let u = src[j];
        let mut found = false;
        let mut i: usize = 0;
        while i < dst.len()
            invariant
                i <= dst@.len(),
                found == (exists|a: int| 0 <= a < i && dst@[a] == u),
            decreases dst@.len() - i,
        {
            if dst[i] == u {
                found = true;
            }
            i = i + 1;
        }
        let ghost before = dst@;
        if !found {
            dst.push(u);
            proof {
                assert forall|a: int, b: int| 0 <= a < b < dst@.len() implies dst@[a] != dst@[b] by {
                    if b < before.len() {
                        assert(before[a] != before[b]);
                    } else {
                        assert(before[a] != u);
                    }
                }
            }
        }
        proof {
            assert(src@.take(j + 1) =~= src@.take(j as int).push(u));
            lemma_seq_set_push(src@.take(j as int), u);
            if found {
                let a = choose|a: int| 0 <= a < before.len() && before[a] == u;
                assert(seq_set(before).contains(u));
                assert(seq_set(before).insert(u) =~= seq_set(before));
            } else {
                lemma_seq_set_push(before, u);
            }
            assert(seq_set(dst@) =~= s0 + seq_set(src@.take(j + 1)));
        }
        j = j + 1;
    }
    assert(src@.take(src@.len() as int) =~= src@);
}

/// What is known of a peripheral from its advertisements. A field that is
/// `None`, or a key or service that is absent, has not been observed.
#[derive(Debug, Clone, Default)]
pub struct PeripheralProperties {
    /// The advertised local name.
    pub local_name: Option<String>,
    /// The advertised transmit power level, in dBm.
    pub tx_power_level: Option<i16>,
    /// The received signal strength, in dBm.
    pub rssi: Option<i16>,
    /// Manufacturer data by 16-bit company identifier.
    pub manufacturer_data: Vec<(u16, Vec<u8>)>,
    /// Service data by 128-bit service UUID.
    pub service_data: Vec<(u128, Vec<u8>)>,
    /// Advertised 128-bit service UUIDs.
    pub services: Vec<u128>,
    /// The device class.
    pub class: Option<u32>,
}

/// The mathematical content of `PeripheralProperties`.
pub struct PropertiesModel {
    pub local_name: Option<Seq<char>>,
    pub tx_power_level: Option<i16>,
    pub rssi: Option<i16>,
    pub manufacturer_data: Map<u16, Seq<u8>>,
    pub service_data: Map<u128, Seq<u8>>,
    pub services: Set<u128>,
    pub class: Option<u32>,
}

/// `b` if it holds a value, else `a`.
pub open spec fn override_opt<T>(a: Option<T>, b: Option<T>) -> Option<T> {
    if b is Some {
        b
    } else {
        a
    }
}

/// Nothing observed yet.
pub open spec fn unknown_model() -> PropertiesModel {
    PropertiesModel {
        local_name: None,
        tx_power_level: None,
        rssi: None,
        manufacturer_data: Map::empty(),
        service_data: Map::empty(),
        services: Set::empty(),
        class: None,
    }
}

/// The merge of an update into known properties: each field present in the
/// update overrides, the data maps and the service set are united, and a
/// key of the update wins over the same key already known.
pub open spec fn merged(a: PropertiesModel, b: PropertiesModel) -> PropertiesModel {
    PropertiesModel {
        local_name: override_opt(a.local_name, b.local_name),
        tx_power_level: override_opt(a.tx_power_level, b.tx_power_level),
        rssi: override_opt(a.rssi, b.rssi),
        manufacturer_data: a.manufacturer_data.union_prefer_right(b.manufacturer_data),
        service_data: a.service_data.union_prefer_right(b.service_data),
        services: a.services + b.services,
        class: override_opt(a.class, b.class),
    }
}

/// Merges a sequence of updates, in order, into `start`.
pub open spec fn merged_all(start: PropertiesModel, updates: Seq<PropertiesModel>) -> PropertiesModel
    decreases updates.len(),
{
    if updates.len() == 0 {
        start
    } else {
        merged(merged_all(start, updates.drop_last()), updates.last())
    }
}

/// Every field observed in `a` is observed in `c`, and every key and
/// service known in `a` is known in `c`.
pub open spec fn keeps_observed(a: PropertiesModel, c: PropertiesModel) -> bool {
    &&& a.local_name is Some ==> c.local_name is Some
    &&& a.tx_power_level is Some ==> c.tx_power_level is Some
    &&& a.rssi is Some ==> c.rssi is Some
    &&& a.class is Some ==> c.class is Some
    &&& a.manufacturer_data.dom().subset_of(c.manufacturer_data.dom())
    &&& a.service_data.dom().subset_of(c.service_data.dom())
    &&& a.services.subset_of(c.services)
}

/// Merging updates in order never turns an observed field back to unknown.
pub proof fn lemma_merge_never_reverts(start: PropertiesModel, updates: Seq<PropertiesModel>)
    ensures
        keeps_observed(start, merged_all(start, updates)),
    decreases updates.len(),
{
    if updates.len() > 0 {
        lemma_merge_never_reverts(start, updates.drop_last());
    }
}

/// A local name as a sequence of characters.
pub open spec fn name_view(n: Option<String>) -> Option<Seq<char>> {
    match n {
        Some(s) => Some(s@),
        None => None,
    }
}

impl PeripheralProperties {
    /// The properties as maps and sets of plain values.
    pub open spec fn view(&self) -> PropertiesModel {
        PropertiesModel {
            local_name: name_view(self.local_name),
            tx_power_level: self.tx_power_level,
            rssi: self.rssi,
            manufacturer_data: keyed_map(bytes_entries(self.manufacturer_data@)),
            service_data: keyed_map(bytes_entries(self.service_data@)),
            services: seq_set(self.services@),
            class: self.class,
        }
    }

    /// Stored properties list each key and service once.
    pub open spec fn wf(&self) -> bool {
        &&& unique_keys(bytes_entries(self.manufacturer_data@))
        &&& unique_keys(bytes_entries(self.service_data@))
        &&& self.services@.no_duplicates()
    }

    /// Properties with nothing observed.
    pub fn new() -> (r: PeripheralProperties)
        ensures
            r@ == unknown_model(),
            r.wf(),
    {
        let r = PeripheralProperties {
            local_name: None,
            tx_power_level: None,
            rssi: None,
            manufacturer_data: Vec::new(),
            service_data: Vec::new(),
            services: Vec::new(),
            class: None,
        };
        assert(seq_set(r.services@) =~= Set::empty());
        r
    }

    /// Merges a partial update into these properties.
    pub fn merge_from(&mut self, update: &PeripheralProperties)
        requires
            old(self).wf(),
        ensures
            final(self).wf(),
            final(self)@ == merged(old(self)@, update@),
    {
        match &update.local_name {
            Some(n) => {
                self.local_name = Some(n.clone());
            },
            None => {},
        }
        if update.tx_power_level.is_some() {
            self.tx_power_level = update.tx_power_level;
        }
        if update.rssi.is_some() {
            self.rssi = update.rssi;
        }
        if update.class.is_some() {
            self.class = update.class;
        }
        merge_entries_u16(&mut self.manufacturer_data, &update.manufacturer_data);
        merge_entries_u128(&mut self.service_data, &update.service_data);
        merge_services(&mut self.services, &update.services);
    }

    /// An independent copy of these properties.
    pub fn snapshot(&self) -> (r: PeripheralProperties)
        requires
            self.wf(),
        ensures
            r.wf(),
            r@ == self@,
    {
        let mut r = PeripheralProperties::new();
        r.merge_from(self);
        assert(r@.manufacturer_data =~= self@.manufacturer_data);
        assert(r@.service_data =~= self@.service_data);
        assert(r@.services =~= self@.services);
        r
    }
}

/// A copy of a list of entries with byte values.
pub(crate) fn copy_entries_u16(v: &Vec<(u16, Vec<u8>)>) -> (r: Vec<(u16, Vec<u8>)>)
    ensures
        bytes_entries(r@) == bytes_entries(v@),
{
    let mut r: Vec<(u16, Vec<u8>)> = Vec::new();
    let mut i: usize = 0;
    while i < v.len()
        invariant
            i <= v@.len(),
            bytes_entries(r@) =~= bytes_entries(v@).take(i as int),
        decreases v@.len() - i,
    {
        let ghost before = r@;
        r.push((v[i].0, copy_bytes(&v[i].1)));
        assert(bytes_entries(r@) =~= bytes_entries(before).push((v@[i as int].0, v@[i as int].1@)));
        i = i + 1;
    }
    assert(bytes_entries(v@).take(v@.len() as int) =~= bytes_entries(v@));
    r
}

/// A copy of a list of entries with byte values.
pub(crate) fn copy_entries_u128(v: &Vec<(u128, Vec<u8>)>) -> (r: Vec<(u128, Vec<u8>)>)
    ensures
        bytes_entries(r@) == bytes_entries(v@),
{
    let mut r: Vec<(u128, Vec<u8>)> = Vec::new();
    let mut i: usize = 0;
    while i < v.len()
        invariant
            i <= v@.len(),
            bytes_entries(r@) =~= bytes_entries(v@).take(i as int),
        decreases v@.len() - i,
    {
        let ghost before = r@;
        r.push((v[i].0, copy_bytes(&v[i].1)));
        assert(bytes_entries(r@) =~= bytes_entries(before).push((v@[i as int].0, v@[i as int].1@)));
        i = i + 1;
    }
    assert(bytes_entries(v@).take(v@.len() as int) =~= bytes_entries(v@));
    r
}

/// A copy of a list of UUIDs.
pub(crate) fn copy_uuids(v: &Vec<u128>) -> (r: Vec<u128>)
    ensures
        r@ == v@,
{
    let r = v.clone();
    assert(r@ =~= v@);
    r
}

} // verus!
