//! The plugin registry: an ordered index of records locating each plugin's
//! payload inside one packed byte buffer.

use vstd::prelude::*;
use pinocchio::pubkey::Pubkey;
use crate::asset::{le_bytes, le_u64, lemma_le_round_trip, push_bytes, read_array};
use crate::error::CoreError;
use crate::types::{Key, key_byte};
use crate::update_authority::zero_key;

verus! {

/// The kinds of plugins that can be attached to an asset, at most one of each.
#[derive(Clone, Copy, Debug, PartialEq, Eq, Structural)]
pub enum PluginType {
    Royalties,
    FreezeDelegate,
    BurnDelegate,
    TransferDelegate,
    UpdateDelegate,
    PermanentFreezeDelegate,
    Attributes,
    PermanentTransferDelegate,
    PermanentBurnDelegate,
    Edition,
    MasterEdition,
    AddBlocker,
    ImmutableMetadata,
    VerifiedCreators,
    Autograph,
    BubblegumV2,
    FreezeExecute,
    PermanentFreezeExecute,
}

/// Who may mutate a plugin.
#[derive(Clone, Copy, Debug)]
pub enum Authority {
    /// Nobody: the plugin is immutable.
    NoAuthority,
    /// The owner of the asset.
    Owner,
    /// The update authority of the asset.
    UpdateAuthority,
    /// An explicit address.
    Address { address: Pubkey },
}

/// One registry slot: the plugin's type, its authority, and where its payload lies.
#[derive(Clone, Copy, Debug)]
pub struct RegistryRecord {
    pub plugin_type: PluginType,
    pub authority: Authority,
    pub offset: usize,
    pub length: usize,
}

/// A record with its offset moved by `delta`.
pub open spec fn shifted(r: RegistryRecord, delta: int) -> RegistryRecord {
    RegistryRecord { offset: (r.offset + delta) as usize, ..r }
}

/// End of a record's payload.
pub open spec fn record_end(r: RegistryRecord) -> int {
    r.offset + r.length
}

/// The records tile `[start, end)` in order, each payload right after the previous one.
pub open spec fn packed(s: Seq<RegistryRecord>, start: int, end: int) -> bool {
    &&& s.len() == 0 ==> end == start
    &&& s.len() > 0 ==> s[0].offset == start && record_end(s.last()) == end
    &&& forall|i: int, j: int|
        0 <= i && j == i + 1 && j < s.len() ==> #[trigger] s[j].offset == record_end(
            #[trigger] s[i],
        )
}

/// No plugin type occurs twice.
pub open spec fn distinct_types(s: Seq<RegistryRecord>) -> bool {
    forall|i: int, j: int|
        0 <= i < j < s.len() ==> #[trigger] s[i].plugin_type != #[trigger] s[j].plugin_type
}

pub open spec fn has_type(s: Seq<RegistryRecord>, t: PluginType) -> bool {
    exists|i: int| 0 <= i < s.len() && #[trigger] s[i].plugin_type == t
}

/// The slot holding type `t`, when there is one.
pub open spec fn index_of(s: Seq<RegistryRecord>, t: PluginType) -> int {
    choose|i: int| 0 <= i < s.len() && #[trigger] s[i].plugin_type == t
}

/// Sum of the payload lengths.
pub open spec fn sum_lengths(s: Seq<RegistryRecord>) -> int
    decreases s.len(),
{
    if s.len() == 0 {
        0
    } else {
        sum_lengths(s.drop_last()) + s.last().length
    }
}

/// The records once slot `i` is taken out: later payloads move down by its length.
pub open spec fn records_after_remove(s: Seq<RegistryRecord>, i: int) -> Seq<RegistryRecord> {
    Seq::new(
        (s.len() - 1) as nat,
        |j: int|
            if j < i {
                s[j]
            } else {
                shifted(s[j + 1], -s[i].length)
            },
    )
}

/// The records once slot `i` holds `n` bytes: later payloads move by the difference.
pub open spec fn records_after_resize(s: Seq<RegistryRecord>, i: int, n: int) -> Seq<
    RegistryRecord,
> {
    Seq::new(
        s.len(),
        |j: int|
            if j < i {
                s[j]
            } else if j == i {
                RegistryRecord { length: n as usize, ..s[i] }
            } else {
                shifted(s[j], n - s[i].length)
            },
    )
}

/// `d` with `[start, end)` replaced by `ins`.
pub open spec fn splice(d: Seq<u8>, start: int, end: int, ins: Seq<u8>) -> Seq<u8> {
    d.subrange(0, start) + ins + d.subrange(end, d.len() as int)
}

/// Bytes of the plugin header: its discriminant and the registry's offset.
pub const HEADER_LEN: usize = 9;

/// Length of the account image holding `data_len` bytes and `n` slots.
pub open spec fn image_len(data_len: int, n: int) -> int {
    data_len + 1 + RECORD_LEN * n + 8
}

/// The plugin header for a registry that begins at `registry_offset`.
pub open spec fn header_image(registry_offset: int) -> Seq<u8> {
    seq![key_byte(Key::PluginHeaderV1)] + le_bytes(registry_offset as u64)
}

/// `d` with the plugin header that ends at `h` pointing past its last byte.
pub open spec fn with_header(d: Seq<u8>, h: int) -> Seq<u8> {
    d.subrange(0, h - HEADER_LEN) + header_image(d.len() as int) + d.subrange(h, d.len() as int)
}

/// Writes the plugin header that ends at `h`: the discriminant, then the
/// offset where the registry begins, which is the end of the bytes.
fn write_header(data: &mut Vec<u8>, h: usize)
    requires
        HEADER_LEN <= h <= old(data)@.len(),
    ensures
        final(data)@ == with_header(old(data)@, h as int),
{
    let ghost d = data@;
    let len = data.len();
    let off = crate::asset::write_le_u64(len as u64);
    data.set(h - HEADER_LEN, Key::PluginHeaderV1.to_byte());
    let mut i: usize = 0;
    while i < 8
        invariant
            HEADER_LEN <= h <= len,
            d.len() == len,
            data@.len() == len,
            off@ == le_bytes(len as u64),
            i <= 8,
            data@[h - HEADER_LEN] == key_byte(Key::PluginHeaderV1),
            forall|j: int| 0 <= j < i ==> data@[h - 8 + j] == off@[j],
            forall|j: int| 0 <= j < len && (j < h - HEADER_LEN || j >= h) ==> data@[j] == d[j],
        decreases 8 - i,
    {
        data.set(h - 8 + i, off[i]);
        i = i + 1;
    }
    assert(data@ =~= with_header(d, h as int));
}

/// The packed account: leading bytes up to `header_end` (the base record and
/// plugin header), then the payloads in registry order.
#[derive(Debug)]
pub struct PluginRegistry {
    /// End of the fixed overhead; the first payload starts here.
    pub header_end: usize,
    /// The largest size the stored account, registry included, may grow to.
    pub max_len: usize,
    /// The registry slots, in insertion order.
    pub records: Vec<RegistryRecord>,
    /// The account's bytes.
    pub data: Vec<u8>,
}

/// A packed registry's payloads fill the account after the fixed overhead.
pub proof fn lemma_packed_sum(s: Seq<RegistryRecord>, start: int, end: int)
    requires
        packed(s, start, end),
    ensures
        end == start + sum_lengths(s),
    decreases s.len(),
{
    if s.len() > 0 {
        let p = s.drop_last();
        let e = s.last().offset as int;
        if s.len() > 1 {
            assert(s[s.len() - 1].offset == record_end(s[s.len() - 2]));
        }
        assert forall|i: int, j: int|
            0 <= i && j == i + 1 && j < p.len() implies #[trigger] p[j].offset == record_end(
            #[trigger] p[i],
        ) by {
            assert(s[j].offset == record_end(s[i]));
        }
        lemma_packed_sum(p, start, e);
    }
}

/// In a packed registry every payload ends before any later one begins.
pub proof fn lemma_packed_ordered(s: Seq<RegistryRecord>, start: int, end: int)
    requires
        packed(s, start, end),
    ensures
        forall|i: int, j: int|
            0 <= i < j < s.len() ==> record_end(#[trigger] s[i]) <= #[trigger] s[j].offset,
    decreases s.len(),
{
    if s.len() > 1 {
        let p = s.drop_last();
        let e = s.last().offset as int;
        let n = s.len() - 1;
        assert(s[n].offset == record_end(s[n - 1]));
        assert forall|i: int, j: int|
            0 <= i && j == i + 1 && j < p.len() implies #[trigger] p[j].offset == record_end(
            #[trigger] p[i],
        ) by {
            assert(s[j].offset == record_end(s[i]));
        }
        lemma_packed_ordered(p, start, e);
        assert forall|i: int, j: int| 0 <= i < j < s.len() implies record_end(#[trigger] s[i])
            <= #[trigger] s[j].offset by {
            if j < n {
                assert(p[i] == s[i] && p[j] == s[j]);
            } else if i < n - 1 {
                assert(p[i] == s[i] && p[n - 1] == s[n - 1]);
                assert(record_end(p[i]) <= p[n - 1].offset);
            }
        }
    }
}

/// Every payload of a packed registry lies inside `[start, end)`.
pub proof fn lemma_packed_bounds(s: Seq<RegistryRecord>, start: int, end: int)
    requires
        packed(s, start, end),
    ensures
        forall|i: int|
            0 <= i < s.len() ==> start <= (#[trigger] s[i]).offset && record_end(s[i]) <= end,
{
    lemma_packed_ordered(s, start, end);
    assert forall|i: int| 0 <= i < s.len() implies start <= (#[trigger] s[i]).offset
        && record_end(s[i]) <= end by {
        if i > 0 {
            assert(record_end(s[0]) <= s[i].offset);
        }
        if i < s.len() - 1 {
            assert(record_end(s[i]) <= s[s.len() - 1].offset);
        }
    }
}

/// Copies `d` with `[start, end)` replaced by `ins`.
fn splice_bytes(d: &Vec<u8>, start: usize, end: usize, ins: &[u8]) -> (r: Vec<u8>)
    requires
        start <= end <= d@.len(),
        d@.len() - (end - start) + ins@.len() <= usize::MAX,
    ensures
        r@ == splice(d@, start as int, end as int, ins@),
{
    let mut r: Vec<u8> = Vec::new();
    let mut i: usize = 0;
    while i < start
        invariant
            i <= start <= end <= d@.len(),
            r@ == d@.subrange(0, i as int),
        decreases start - i,
    {
        r.push(d[i]);
        i = i + 1;
        assert(r@ =~= d@.subrange(0, i as int));
    }
    let mut k: usize = 0;
    while k < ins.len()
        invariant
            i == start,
            k <= ins@.len(),
            r@ == d@.subrange(0, start as int) + ins@.subrange(0, k as int),
        decreases ins@.len() - k,
    {
        r.push(ins[k]);
        k = k + 1;
        assert(r@ =~= d@.subrange(0, start as int) + ins@.subrange(0, k as int));
    }
    assert(ins@.subrange(0, k as int) =~= ins@);
    let mut j: usize = end;
    while j < d.len()
        invariant
            start <= end <= j <= d@.len(),
            r@ == d@.subrange(0, start as int) + ins@ + d@.subrange(end as int, j as int),
        decreases d@.len() - j,
    {
        r.push(d[j]);
        j = j + 1;
        assert(r@ =~= d@.subrange(0, start as int) + ins@ + d@.subrange(end as int, j as int));
    }
    r
}

impl PluginRegistry {
    /// The registry's internal invariant.
    pub open spec fn wf(&self) -> bool {
        &&& HEADER_LEN <= self.header_end <= self.data@.len()
        &&& image_len(self.data@.len() as int, self.records@.len() as int) <= self.max_len
        &&& self.data@.subrange(self.header_end - HEADER_LEN, self.header_end as int)
            == header_image(self.data@.len() as int)
        &&& packed(self.records@, self.header_end as int, self.data@.len() as int)
        &&& distinct_types(self.records@)
    }

    /// The payload of slot `i`.
    pub open spec fn payload(&self, i: int) -> Seq<u8> {
        self.data@.subrange(self.records@[i].offset as int, record_end(self.records@[i]))
    }

    /// A registry over the leading bytes `base`, with no plugins; the last
    /// bytes of `base` become the plugin header.
    pub fn new(base: Vec<u8>, max_len: usize) -> (r: Result<Self, CoreError>)
        ensures
            base@.len() < HEADER_LEN <==> r == Err::<Self, CoreError>(
                CoreError::DeserializationError,
            ),
            base@.len() >= HEADER_LEN && image_len(base@.len() as int, 0) > max_len <==> r
                == Err::<Self, CoreError>(CoreError::CapacityExceeded),
            r is Ok <==> base@.len() >= HEADER_LEN && image_len(base@.len() as int, 0) <= max_len,
            r matches Ok(reg) ==> reg.wf() && reg.header_end == base@.len() && reg.max_len
                == max_len && reg.records@.len() == 0 && reg.data@ == with_header(
                base@,
                base@.len() as int,
            ),
    {
        if base.len() < HEADER_LEN {
            return Err(CoreError::DeserializationError);
        }
        if base.len() > max_len || max_len - base.len() < 9 {
            return Err(CoreError::CapacityExceeded);
        }
        let mut data = base;
        let h = data.len();
        write_header(&mut data, h);
        let reg = PluginRegistry { header_end: h, max_len, records: Vec::new(), data };
        assert(reg.data@.subrange(h - HEADER_LEN, h as int) =~= header_image(h as int));
        Ok(reg)
    }

    /// Room left before the account image reaches its maximum.
    fn spare(&self) -> (r: usize)
        requires
            self.wf(),
        ensures
            r == self.max_len - image_len(self.data@.len() as int, self.records@.len() as int),
    {
        self.max_len - (self.data.len() + 9 + RECORD_LEN * self.records.len())
    }

    /// Length of the leading bytes and payloads: the offset where the
    /// registry begins in the account.
    pub fn account_len(&self) -> (r: usize)
        ensures
            r == self.data@.len(),
    {
        self.data.len()
    }

    /// The slot of the plugin of type `t`.
    pub fn find(&self, t: PluginType) -> (r: Option<usize>)
        requires
            self.wf(),
        ensures
            r is None <==> !has_type(self.records@, t),
            r matches Some(i) ==> i < self.records@.len() && self.records@[i as int].plugin_type
                == t && i == index_of(self.records@, t),
    {
        let mut i: usize = 0;
        while i < self.records.len()
            invariant
                self.wf(),
                i <= self.records@.len(),
                forall|j: int| 0 <= j < i ==> #[trigger] self.records@[j].plugin_type != t,
            decreases self.records@.len() - i,
        {
            if self.records[i].plugin_type == t {
                let ghost k = index_of(self.records@, t);
                assert(self.records@[k].plugin_type == t);
                assert(k == i) by {
                    if k > i as int {
                        assert(self.records@[i as int].plugin_type != self.records@[k].plugin_type);
                    }
                }
                return Some(i);
            }
            i = i + 1;
        }
        None
    }

    /// The record of the plugin of type `t`, or none when it is not attached.
    pub fn locate(&self, t: PluginType) -> (r: Option<RegistryRecord>)
        requires
            self.wf(),
        ensures
            r is None <==> !has_type(self.records@, t),
            r matches Some(rec) ==> rec == self.records@[index_of(self.records@, t)],
    {
        match self.find(t) {
            Some(i) => Some(self.records[i]),
            None => None,
        }
    }

    /// The authority of the plugin of type `t`.
    pub fn authority_of(&self, t: PluginType) -> (r: Option<Authority>)
        requires
            self.wf(),
        ensures
            r is None <==> !has_type(self.records@, t),
            r matches Some(a) ==> a == self.records@[index_of(self.records@, t)].authority,
    {
        match self.find(t) {
            Some(i) => Some(self.records[i].authority),
            None => None,
        }
    }

    /// Replaces the authority of the plugin of type `t`, leaving its payload and place.
    pub fn set_authority(&mut self, t: PluginType, authority: Authority) -> (r: Result<
        (),
        CoreError,
    >)
        requires
            old(self).wf(),
        ensures
            final(self).wf(),
            r is Err <==> !has_type(old(self).records@, t),
            r is Err ==> r == Err::<(), CoreError>(CoreError::PluginNotFound) && *final(self)
                == *old(self),
            r is Ok ==> final(self).records@ == old(self).records@.update(
                index_of(old(self).records@, t),
                RegistryRecord { authority, ..old(self).records@[index_of(old(self).records@, t)] },
            ),
            final(self).data@ == old(self).data@,
            final(self).header_end == old(self).header_end,
            final(self).max_len == old(self).max_len,
    {
        match self.find(t) {
            None => Err(CoreError::PluginNotFound),
            Some(i) => {
                let rec = self.records[i];
                let ghost s = self.records@;
                self.records.set(i, RegistryRecord { authority, ..rec });
                assert forall|a: int, b: int|
                    0 <= a && b == a + 1 && b < self.records@.len() implies #[trigger] self.records@[b].offset
                    == record_end(#[trigger] self.records@[a]) by {
                    assert(s[b].offset == record_end(s[a]));
                }
                assert forall|a: int, b: int| 0 <= a < b < self.records@.len() implies #[trigger] self.records@[a].plugin_type
                    != #[trigger] self.records@[b].plugin_type by {
                    assert(s[a].plugin_type != s[b].plugin_type);
                }
                Ok(())
            },
        }
    }

    /// Appends a plugin of type `t` with the given payload at the end of the buffer.
    pub fn insert(&mut self, t: PluginType, authority: Authority, payload: &[u8]) -> (r: Result<
        (),
        CoreError,
    >)
        requires
            old(self).wf(),
        ensures
            final(self).wf(),
            final(self).header_end == old(self).header_end,
            final(self).max_len == old(self).max_len,
            has_type(old(self).records@, t) <==> r == Err::<(), CoreError>(
                CoreError::PluginAlreadyExists,
            ),
            !has_type(old(self).records@, t) && image_len(
                old(self).data@.len() + payload@.len() as int,
                old(self).records@.len() + 1 as int,
            ) > old(self).max_len <==> r == Err::<(), CoreError>(CoreError::CapacityExceeded),
            r is Ok <==> !has_type(old(self).records@, t) && image_len(
                old(self).data@.len() + payload@.len() as int,
                old(self).records@.len() + 1 as int,
            ) <= old(self).max_len,
            r is Err ==> *final(self) == *old(self),
            r is Ok ==> final(self).records@ == old(self).records@.push(
                RegistryRecord {
                    plugin_type: t,
                    authority,
                    offset: old(self).data@.len() as usize,
                    length: payload@.len() as usize,
                },
            ) && final(self).data@ == with_header(
                old(self).data@ + payload@,
                old(self).header_end as int,
            ),
    {
        if self.find(t).is_some() {
            return Err(CoreError::PluginAlreadyExists);
        }
        let spare = self.spare();
        if payload.len() > spare || spare - payload.len() < RECORD_LEN {
            return Err(CoreError::CapacityExceeded);
        }
        let ghost s = self.records@;
        let ghost d = self.data@;
        let ghost pre = *self;
        let offset = self.data.len();
        let mut k: usize = 0;
        while k < payload.len()
            invariant
                k <= payload@.len(),
                self.data@ == d + payload@.subrange(0, k as int),
                self.records@ == s,
                self.header_end == pre.header_end,
                self.max_len == pre.max_len,
                d.len() + payload@.len() <= self.max_len,
            decreases payload@.len() - k,
        {
            self.data.push(payload[k]);
            k = k + 1;
            assert(self.data@ =~= d + payload@.subrange(0, k as int));
        }
        assert(payload@.subrange(0, k as int) =~= payload@);
        self.records.push(
            RegistryRecord { plugin_type: t, authority, offset, length: payload.len() },
        );
        let h = self.header_end;
        write_header(&mut self.data, h);
        assert(self.data@.subrange(h - HEADER_LEN, h as int) =~= header_image(self.data@.len() as int));
        let ghost n = self.records@;
        assert forall|a: int, b: int|
            0 <= a && b == a + 1 && b < n.len() implies #[trigger] n[b].offset == record_end(
            #[trigger] n[a],
        ) by {
            if b < s.len() {
                assert(s[b].offset == record_end(s[a]));
            }
        }
        assert forall|a: int, b: int| 0 <= a < b < n.len() implies #[trigger] n[a].plugin_type
            != #[trigger] n[b].plugin_type by {
            if b < s.len() {
                assert(s[a].plugin_type != s[b].plugin_type);
            } else {
                assert(s[a].plugin_type != t);
            }
        }
        Ok(())
    }
}

/// Payloads after slot `i` begin past its end.
proof fn lemma_later_offsets(s: Seq<RegistryRecord>, i: int, start: int, end: int)
    requires
        packed(s, start, end),
        0 <= i < s.len(),
    ensures
        forall|a: int| i < a < s.len() ==> record_end(s[i]) <= (#[trigger] s[a]).offset,
{
    lemma_packed_ordered(s, start, end);
    assert forall|a: int| i < a < s.len() implies record_end(s[i]) <= (#[trigger] s[a]).offset by {
        assert(record_end(s[i]) <= s[a].offset);
    }
}

/// Removing a slot keeps the registry packed, over an account shorter by its length.
pub proof fn lemma_remove_packed(s: Seq<RegistryRecord>, i: int, start: int, end: int)
    requires
        packed(s, start, end),
        distinct_types(s),
        0 <= i < s.len(),
    ensures
        packed(records_after_remove(s, i), start, end - s[i].length),
        distinct_types(records_after_remove(s, i)),
{
    let n = records_after_remove(s, i);
    lemma_later_offsets(s, i, start, end);
    assert forall|a: int, b: int|
        0 <= a && b == a + 1 && b < n.len() implies #[trigger] n[b].offset == record_end(
        #[trigger] n[a],
    ) by {
        if b < i {
            assert(s[b].offset == record_end(s[a]));
        } else if b == i {
            assert(s[b].offset == record_end(s[a]));
            assert(s[b + 1].offset == record_end(s[b]));
            assert(s[i].length <= s[b + 1].offset);
        } else {
            assert(s[b + 1].offset == record_end(s[a + 1]));
            assert(s[i].length <= s[b + 1].offset);
            assert(s[i].length <= s[a + 1].offset);
        }
    }
    assert forall|a: int, b: int| 0 <= a < b < n.len() implies #[trigger] n[a].plugin_type
        != #[trigger] n[b].plugin_type by {
        if b < i {
            assert(s[a].plugin_type != s[b].plugin_type);
        } else if a < i {
            assert(s[a].plugin_type != s[b + 1].plugin_type);
        } else {
            assert(s[a + 1].plugin_type != s[b + 1].plugin_type);
        }
    }
    if n.len() > 0 {
        if i == 0 {
            assert(s[1].offset == record_end(s[0]));
        }
        if i == s.len() - 1 {
            assert(s[i].offset == record_end(s[i - 1]));
        } else {
            assert(s[i].length <= s[s.len() - 1].offset);
        }
    }
}

/// Resizing a slot keeps the registry packed, over an account changed by the difference.
pub proof fn lemma_resize_packed(s: Seq<RegistryRecord>, i: int, len: int, start: int, end: int)
    requires
        packed(s, start, end),
        distinct_types(s),
        0 <= i < s.len(),
        0 <= len <= usize::MAX,
        forall|a: int| i < a < s.len() ==> 0 <= (#[trigger] s[a]).offset + len - s[i].length <= usize::MAX,
    ensures
        packed(records_after_resize(s, i, len), start, end + len - s[i].length),
        distinct_types(records_after_resize(s, i, len)),
{
    let n = records_after_resize(s, i, len);
    assert forall|a: int, b: int|
        0 <= a && b == a + 1 && b < n.len() implies #[trigger] n[b].offset == record_end(
        #[trigger] n[a],
    ) by {
        assert(s[b].offset == record_end(s[a]));
    }
    assert forall|a: int, b: int| 0 <= a < b < n.len() implies #[trigger] n[a].plugin_type
        != #[trigger] n[b].plugin_type by {
        assert(s[a].plugin_type != s[b].plugin_type);
    }
}

/// The slots once slot `i` is taken out.
fn records_removing(s: &Vec<RegistryRecord>, i: usize) -> (r: Vec<RegistryRecord>)
    requires
        i < s@.len(),
        forall|a: int| i < a < s@.len() ==> record_end(s@[i as int]) <= (#[trigger] s@[a]).offset,
    ensures
        r@ == records_after_remove(s@, i as int),
{
    let len = s[i].length;
    let mut r: Vec<RegistryRecord> = Vec::new();
    let mut j: usize = 0;
    while j < s.len()
        invariant
            i < s@.len(),
            len == s@[i as int].length,
            j <= s@.len(),
            r@.len() == if j <= i { j as int } else { j - 1 },
            forall|k: int| 0 <= k < r@.len() ==> #[trigger] r@[k] == records_after_remove(s@, i as int)[k],
            forall|a: int| i < a < s@.len() ==> record_end(s@[i as int]) <= (#[trigger] s@[a]).offset,
        decreases s@.len() - j,
    {
        let cur = s[j];
        if j < i {
            r.push(cur);
        } else if j > i {
            r.push(RegistryRecord { offset: cur.offset - len, ..cur });
        }
        j = j + 1;
    }
    assert(r@ =~= records_after_remove(s@, i as int));
    r
}

/// The slots once slot `i` holds `len` bytes.
fn records_resizing(s: &Vec<RegistryRecord>, i: usize, len: usize) -> (r: Vec<RegistryRecord>)
    requires
        i < s@.len(),
        forall|a: int| i < a < s@.len() ==> 0 <= (#[trigger] s@[a]).offset + len - s@[i as int].length <= usize::MAX,
    ensures
        r@ == records_after_resize(s@, i as int, len as int),
{
    let old_len = s[i].length;
    let mut r: Vec<RegistryRecord> = Vec::new();
    let mut j: usize = 0;
    while j < s.len()
        invariant
            i < s@.len(),
            old_len == s@[i as int].length,
            j <= s@.len(),
            r@.len() == j,
            forall|k: int| 0 <= k < r@.len() ==> #[trigger] r@[k] == records_after_resize(s@, i as int, len as int)[k],
            forall|a: int| i < a < s@.len() ==> 0 <= (#[trigger] s@[a]).offset + len - s@[i as int].length <= usize::MAX,
        decreases s@.len() - j,
    {
        let cur = s[j];
        if j < i {
            r.push(cur);
        } else if j == i {
            r.push(RegistryRecord { length: len, ..cur });
        } else if len >= old_len {
            r.push(RegistryRecord { offset: cur.offset + (len - old_len), ..cur });
        } else {
            r.push(RegistryRecord { offset: cur.offset - (old_len - len), ..cur });
        }
        j = j + 1;
    }
    assert(r@ =~= records_after_resize(s@, i as int, len as int));
    r
}

impl PluginRegistry {
    /// Takes out the plugin of type `t`: later payloads move down to close the gap
    /// and the account shrinks by the removed payload's length.
    pub fn remove(&mut self, t: PluginType) -> (r: Result<(), CoreError>)
        requires
            old(self).wf(),
        ensures
            final(self).wf(),
            final(self).header_end == old(self).header_end,
            final(self).max_len == old(self).max_len,
            !has_type(old(self).records@, t) <==> r == Err::<(), CoreError>(
                CoreError::PluginNotFound,
            ),
            r is Ok <==> has_type(old(self).records@, t),
            r is Err ==> *final(self) == *old(self),
            r is Ok ==> ({
                let i = index_of(old(self).records@, t);
                let rec = old(self).records@[i];
                &&& final(self).records@ == records_after_remove(old(self).records@, i)
                &&& final(self).data@ == with_header(
                    splice(old(self).data@, rec.offset as int, record_end(rec), Seq::empty()),
                    old(self).header_end as int,
                )
            }),
    {
        let i = match self.find(t) {
            None => return Err(CoreError::PluginNotFound),
            Some(i) => i,
        };
        let ghost s = self.records@;
        let ghost start = self.header_end as int;
        let ghost end = self.data@.len() as int;
        proof {
            lemma_packed_ordered(s, start, end);
            lemma_packed_bounds(s, start, end);
            lemma_remove_packed(s, i as int, start, end);
        }
        let rec = self.records[i];
        let empty: Vec<u8> = Vec::new();
        let mut new_data = splice_bytes(&self.data, rec.offset, rec.offset + rec.length, empty.as_slice());
        let h = self.header_end;
        write_header(&mut new_data, h);
        assert(new_data@.subrange(h - HEADER_LEN, h as int) =~= header_image(new_data@.len() as int));
        assert forall|a: int| i < a < s.len() implies record_end(s[i as int]) <= (#[trigger] s[a]).offset by {}
        let new_records = records_removing(&self.records, i);
        self.records = new_records;
        self.data = new_data;
        Ok(())
    }

    /// Replaces the payload of the plugin of type `t`: later payloads move by the
    /// change in length and the account grows or shrinks by it.
    pub fn resize(&mut self, t: PluginType, payload: &[u8]) -> (r: Result<(), CoreError>)
        requires
            old(self).wf(),
        ensures
            final(self).wf(),
            final(self).header_end == old(self).header_end,
            final(self).max_len == old(self).max_len,
            !has_type(old(self).records@, t) <==> r == Err::<(), CoreError>(
                CoreError::PluginNotFound,
            ),
            has_type(old(self).records@, t) && image_len(
                old(self).data@.len() - old(self).records@[index_of(old(self).records@, t)].length
                    + payload@.len(),
                old(self).records@.len() as int,
            ) > old(self).max_len <==> r == Err::<(), CoreError>(CoreError::CapacityExceeded),
            r is Ok <==> has_type(old(self).records@, t) && image_len(
                old(self).data@.len() - old(self).records@[index_of(old(self).records@, t)].length
                    + payload@.len(),
                old(self).records@.len() as int,
            ) <= old(self).max_len,
            r is Err ==> *final(self) == *old(self),
            r is Ok ==> ({
                let i = index_of(old(self).records@, t);
                let rec = old(self).records@[i];
                &&& final(self).records@ == records_after_resize(
                    old(self).records@,
                    i,
                    payload@.len() as int,
                )
                &&& final(self).data@ == with_header(
                    splice(old(self).data@, rec.offset as int, record_end(rec), payload@),
                    old(self).header_end as int,
                )
            }),
    {
        let i = match self.find(t) {
            None => return Err(CoreError::PluginNotFound),
            Some(i) => i,
        };
        let ghost s = self.records@;
        let ghost start = self.header_end as int;
        let ghost end = self.data@.len() as int;
        proof {
            lemma_packed_ordered(s, start, end);
            lemma_packed_bounds(s, start, end);
        }
        let rec = self.records[i];
        let spare = self.spare();
        if payload.len() > spare + rec.length {
            return Err(CoreError::CapacityExceeded);
        }
        let len = payload.len();
        assert forall|a: int| i < a < s.len() implies 0 <= (#[trigger] s[a]).offset + len
            - s[i as int].length <= usize::MAX by {
            assert(record_end(s[i as int]) <= s[a].offset);
        }
        proof {
            lemma_resize_packed(s, i as int, len as int, start, end);
        }
        let mut new_data = splice_bytes(&self.data, rec.offset, rec.offset + rec.length, payload);
        let h = self.header_end;
        write_header(&mut new_data, h);
        assert(new_data@.subrange(h - HEADER_LEN, h as int) =~= header_image(new_data@.len() as int));
        let new_records = records_resizing(&self.records, i, len);
        self.records = new_records;
        self.data = new_data;
        Ok(())
    }
}

/// Packing law: in every well-formed registry, and so after every insert, remove
/// and resize, the payload lengths plus the fixed overhead add up to the offset
/// where the registry begins; the stored account adds the registry's
/// discriminant, one fixed-size slot per plugin and the slot count, and stays
/// within the maximum size.
pub proof fn lemma_registry_packing(reg: &PluginRegistry)
    requires
        reg.wf(),
    ensures
        reg.data@.len() == reg.header_end + sum_lengths(reg.records@),
        account_image(*reg).len() == reg.header_end + sum_lengths(reg.records@) + 1 + RECORD_LEN
            * reg.records@.len() + 8,
        account_image(*reg).len() <= reg.max_len,
{
    lemma_packed_sum(reg.records@, reg.header_end as int, reg.data@.len() as int);
    lemma_records_image_len(reg.records@);
}

/// Ordering law: in every well-formed registry, and so after every mutation,
/// payloads do not overlap, lie in the account, and their offsets never decrease.
pub proof fn lemma_registry_ordered(reg: &PluginRegistry)
    requires
        reg.wf(),
    ensures
        forall|i: int, j: int|
            0 <= i < j < reg.records@.len() ==> record_end(#[trigger] reg.records@[i])
                <= #[trigger] reg.records@[j].offset && reg.records@[i].offset
                <= reg.records@[j].offset,
        forall|i: int|
            0 <= i < reg.records@.len() ==> reg.header_end <= (#[trigger] reg.records@[i]).offset
                && record_end(reg.records@[i]) <= reg.data@.len(),
{
    lemma_packed_ordered(reg.records@, reg.header_end as int, reg.data@.len() as int);
    lemma_packed_bounds(reg.records@, reg.header_end as int, reg.data@.len() as int);
}

/// Byte encoding of a plugin type.
pub open spec fn plugin_type_byte(t: PluginType) -> u8 {
    match t {
        PluginType::Royalties => 0,
        PluginType::FreezeDelegate => 1,
        PluginType::BurnDelegate => 2,
        PluginType::TransferDelegate => 3,
        PluginType::UpdateDelegate => 4,
        PluginType::PermanentFreezeDelegate => 5,
        PluginType::Attributes => 6,
        PluginType::PermanentTransferDelegate => 7,
        PluginType::PermanentBurnDelegate => 8,
        PluginType::Edition => 9,
        PluginType::MasterEdition => 10,
        PluginType::AddBlocker => 11,
        PluginType::ImmutableMetadata => 12,
        PluginType::VerifiedCreators => 13,
        PluginType::Autograph => 14,
        PluginType::BubblegumV2 => 15,
        PluginType::FreezeExecute => 16,
        PluginType::PermanentFreezeExecute => 17,
    }
}

impl PluginType {
    pub fn to_byte(self) -> (r: u8)
        ensures
            r == plugin_type_byte(self),
    {
        match self {
            PluginType::Royalties => 0,
            PluginType::FreezeDelegate => 1,
            PluginType::BurnDelegate => 2,
            PluginType::TransferDelegate => 3,
            PluginType::UpdateDelegate => 4,
            PluginType::PermanentFreezeDelegate => 5,
            PluginType::Attributes => 6,
            PluginType::PermanentTransferDelegate => 7,
            PluginType::PermanentBurnDelegate => 8,
            PluginType::Edition => 9,
            PluginType::MasterEdition => 10,
            PluginType::AddBlocker => 11,
            PluginType::ImmutableMetadata => 12,
            PluginType::VerifiedCreators => 13,
            PluginType::Autograph => 14,
            PluginType::BubblegumV2 => 15,
            PluginType::FreezeExecute => 16,
            PluginType::PermanentFreezeExecute => 17,
        }
    }

    /// Decodes a plugin type byte; unknown bytes are refused.
    pub fn from_byte(b: u8) -> (r: Option<PluginType>)
        ensures
            r is None <==> b > 17,
            r matches Some(t) ==> plugin_type_byte(t) == b,
    {
        match b {
            0 => Some(PluginType::Royalties),
            1 => Some(PluginType::FreezeDelegate),
            2 => Some(PluginType::BurnDelegate),
            3 => Some(PluginType::TransferDelegate),
            4 => Some(PluginType::UpdateDelegate),
            5 => Some(PluginType::PermanentFreezeDelegate),
            6 => Some(PluginType::Attributes),
            7 => Some(PluginType::PermanentTransferDelegate),
            8 => Some(PluginType::PermanentBurnDelegate),
            9 => Some(PluginType::Edition),
            10 => Some(PluginType::MasterEdition),
            11 => Some(PluginType::AddBlocker),
            12 => Some(PluginType::ImmutableMetadata),
            13 => Some(PluginType::VerifiedCreators),
            14 => Some(PluginType::Autograph),
            15 => Some(PluginType::BubblegumV2),
            16 => Some(PluginType::FreezeExecute),
            17 => Some(PluginType::PermanentFreezeExecute),
            _ => None,
        }
    }
}

/// Bytes of one registry slot.
pub const RECORD_LEN: usize = 50;

/// Tag byte and 32-byte payload of an authority; zero payload unless it is an address.
pub open spec fn authority_image(a: Authority) -> Seq<u8> {
    match a {
        Authority::NoAuthority => seq![0u8] + zero_key(),
        Authority::Owner => seq![1u8] + zero_key(),
        Authority::UpdateAuthority => seq![2u8] + zero_key(),
        Authority::Address { address } => seq![3u8] + address@,
    }
}

/// `[plugin_type:1][authority_tag:1][authority_payload:32][offset:8][length:8]`.
pub open spec fn record_image(r: RegistryRecord) -> Seq<u8> {
    seq![plugin_type_byte(r.plugin_type)] + authority_image(r.authority) + le_bytes(
        r.offset as u64,
    ) + le_bytes(r.length as u64)
}

/// The slots' bytes, one after the other.
pub open spec fn records_image(s: Seq<RegistryRecord>) -> Seq<u8>
    decreases s.len(),
{
    if s.len() == 0 {
        Seq::empty()
    } else {
        records_image(s.drop_last()) + record_image(s.last())
    }
}

/// The registry: its discriminant, the slots, then their count.
pub open spec fn registry_image(s: Seq<RegistryRecord>) -> Seq<u8> {
    seq![key_byte(Key::PluginRegistryV1)] + records_image(s) + le_bytes(s.len() as u64)
}

/// The whole account: leading bytes and payloads, then the registry.
pub open spec fn account_image(reg: PluginRegistry) -> Seq<u8> {
    reg.data@ + registry_image(reg.records@)
}

pub proof fn lemma_records_image_len(s: Seq<RegistryRecord>)
    ensures
        records_image(s).len() == RECORD_LEN * s.len(),
    decreases s.len(),
{
    if s.len() > 0 {
        lemma_records_image_len(s.drop_last());
    }
}

/// The bytes of one slot.
fn record_bytes(r: &RegistryRecord, v: &mut Vec<u8>)
    ensures
        final(v)@ == old(v)@ + record_image(*r),
{
    let ghost start = v@;
    v.push(r.plugin_type.to_byte());
    match r.authority {
        Authority::NoAuthority => {
            v.push(0);
            push_bytes(v, [0u8; 32].as_slice());
        },
        Authority::Owner => {
            v.push(1);
            push_bytes(v, [0u8; 32].as_slice());
        },
        Authority::UpdateAuthority => {
            v.push(2);
            push_bytes(v, [0u8; 32].as_slice());
        },
        Authority::Address { address } => {
            v.push(3);
            push_bytes(v, address.as_slice());
        },
    }
    let off = crate::asset::write_le_u64(r.offset as u64);
    push_bytes(v, off.as_slice());
    let len = crate::asset::write_le_u64(r.length as u64);
    push_bytes(v, len.as_slice());
    assert(v@ =~= start + record_image(*r));
}

/// Decodes one slot from the 50 bytes of `b` at `at`.
fn parse_record(b: &[u8], at: usize) -> (r: Option<RegistryRecord>)
    requires
        at + RECORD_LEN <= b@.len(),
    ensures
        r matches Some(rec) ==> record_image(rec) == b@.subrange(at as int, at + RECORD_LEN),
        (exists|rec: RegistryRecord| record_image(rec) == b@.subrange(at as int, at + RECORD_LEN))
            ==> r is Some,
{
    let ghost chunk = b@.subrange(at as int, at + RECORD_LEN);
    let ghost w: Option<RegistryRecord> = if exists|rec: RegistryRecord|
        record_image(rec) == chunk {
        Some(choose|rec: RegistryRecord| record_image(rec) == chunk)
    } else {
        None
    };
    proof {
        if let Some(rec) = w {
            lemma_record_image_parts(rec);
            assert(chunk[0] == b@[at as int]);
            assert(chunk[1] == b@[at + 1]);
        }
    }
    let t = match PluginType::from_byte(b[at]) {
        Some(t) => t,
        None => return None,
    };
    let payload = read_array::<32>(b, at + 2);
    let tag = b[at + 1];
    let authority = if tag == 0 {
        Authority::NoAuthority
    } else if tag == 1 {
        Authority::Owner
    } else if tag == 2 {
        Authority::UpdateAuthority
    } else if tag == 3 {
        Authority::Address { address: payload }
    } else {
        return None;
    };
    proof {
        if let Some(rec) = w {
            assert(payload@ =~= chunk.subrange(2, 34));
        }
    }
    if tag < 3 {
        let mut i: usize = 0;
        while i < 32
            invariant
                i <= 32,
                payload@.len() == 32,
                forall|j: int| 0 <= j < i ==> payload@[j] == 0u8,
                tag < 3,
                chunk == b@.subrange(at as int, at + RECORD_LEN),
                w is None ==> !(exists|rec: RegistryRecord| record_image(rec) == chunk),
                w matches Some(rec) ==> authority_image(rec.authority)[0] == tag && payload@
                    == authority_image(rec.authority).subrange(1, 33),
            decreases 32 - i,
        {
            if payload[i] != 0 {
                proof {
                    if let Some(rec) = w {
                        lemma_record_image_parts(rec);
                        assert(payload@[i as int] == zero_key()[i as int]);
                    }
                }
                return None;
            }
            i = i + 1;
        }
        assert(payload@ =~= zero_key());
    }
    let off_bytes = read_array::<8>(b, at + 34);
    let len_bytes = read_array::<8>(b, at + 42);
    let off = crate::asset::read_le_u64(&off_bytes);
    let len = crate::asset::read_le_u64(&len_bytes);
    proof {
        if let Some(rec) = w {
            assert(off_bytes@ =~= chunk.subrange(34, 42));
            assert(len_bytes@ =~= chunk.subrange(42, 50));
            lemma_le_round_trip(rec.offset as u64);
            lemma_le_round_trip(rec.length as u64);
        }
    }
    if off > usize::MAX as u64 || len > usize::MAX as u64 {
        return None;
    }
    let rec = RegistryRecord { plugin_type: t, authority, offset: off as usize, length: len as usize };
    proof {
        lemma_le_bytes_of(off_bytes@);
        lemma_le_bytes_of(len_bytes@);
    }
    assert(record_image(rec) =~= b@.subrange(at as int, at + RECORD_LEN));
    Some(rec)
}

/// The fields of a slot's image, and the values its bytes can take.
proof fn lemma_record_image_parts(rec: RegistryRecord)
    ensures
        record_image(rec).len() == RECORD_LEN,
        record_image(rec)[0] == plugin_type_byte(rec.plugin_type),
        plugin_type_byte(rec.plugin_type) <= 17,
        record_image(rec)[1] == authority_image(rec.authority)[0],
        authority_image(rec.authority)[0] <= 3,
        authority_image(rec.authority).len() == 33,
        authority_image(rec.authority)[0] < 3 ==> authority_image(rec.authority).subrange(1, 33)
            == zero_key(),
        record_image(rec).subrange(1, 34) == authority_image(rec.authority),
        record_image(rec).subrange(34, 42) == le_bytes(rec.offset as u64),
        record_image(rec).subrange(42, 50) == le_bytes(rec.length as u64),
{
    let i = record_image(rec);
    let x = authority_image(rec.authority);
    assert(i.subrange(1, 34) =~= x);
    assert(i.subrange(34, 42) =~= le_bytes(rec.offset as u64));
    assert(i.subrange(42, 50) =~= le_bytes(rec.length as u64));
    assert(i[1] == i.subrange(1, 34)[0]);
    match rec.authority {
        Authority::Address { address } => {},
        _ => {
            assert(x.subrange(1, 33) =~= zero_key());
        },
    }
}

/// Eight bytes are the little-endian bytes of their value.
pub proof fn lemma_le_bytes_of(b: Seq<u8>)
    requires
        b.len() == 8,
    ensures
        le_bytes(le_u64(b)) == b,
{
    let v = le_u64(b);
    let (b0, b1, b2, b3, b4, b5, b6, b7) = (b[0], b[1], b[2], b[3], b[4], b[5], b[6], b[7]);
    assert(v == ((b0 as u64) | ((b1 as u64) << 8u64) | ((b2 as u64) << 16u64) | ((b3 as u64)
        << 24u64) | ((b4 as u64) << 32u64) | ((b5 as u64) << 40u64) | ((b6 as u64) << 48u64) | ((
    b7 as u64) << 56u64)));
    assert(b0 == v as u8 && b1 == (v >> 8u64) as u8 && b2 == (v >> 16u64) as u8 && b3 == (v
        >> 24u64) as u8 && b4 == (v >> 32u64) as u8 && b5 == (v >> 40u64) as u8 && b6 == (v
        >> 48u64) as u8 && b7 == (v >> 56u64) as u8) by (bit_vector)
        requires
            v == ((b0 as u64) | ((b1 as u64) << 8u64) | ((b2 as u64) << 16u64) | ((b3 as u64)
                << 24u64) | ((b4 as u64) << 32u64) | ((b5 as u64) << 40u64) | ((b6 as u64)
                << 48u64) | ((b7 as u64) << 56u64)),
    ;
    assert(le_bytes(v) =~= b);
}

/// Decodes `count` slots laid out from `at`; every image of `count` slots is
/// accepted and gives those slots back.
fn parse_records(img: &[u8], at: usize, count: usize) -> (r: Option<Vec<RegistryRecord>>)
    requires
        at + RECORD_LEN * count <= img@.len(),
    ensures
        r matches Some(v) ==> v@.len() == count && records_image(v@) == img@.subrange(
            at as int,
            at + RECORD_LEN * count,
        ),
        forall|s: Seq<RegistryRecord>|
            #![trigger records_image(s)]
            s.len() == count && records_image(s) == img@.subrange(at as int, at + RECORD_LEN * count)
                ==> r is Some,
{
    let ghost whole = img@.subrange(at as int, at + RECORD_LEN * count);
    let ghost w: Option<Seq<RegistryRecord>> = if exists|s: Seq<RegistryRecord>|
        s.len() == count && #[trigger] records_image(s) == whole {
        Some(choose|s: Seq<RegistryRecord>| s.len() == count && #[trigger] records_image(s) == whole)
    } else {
        None
    };
    let ilen = img.len();
    let mut records: Vec<RegistryRecord> = Vec::new();
    let mut k: usize = 0;
    while k < count
        invariant
            ilen == img@.len(),
            at + RECORD_LEN * count <= img@.len(),
            whole == img@.subrange(at as int, at + RECORD_LEN * count),
            k <= count,
            records@.len() == k,
            records_image(records@) == img@.subrange(at as int, at + RECORD_LEN * k),
            w is None ==> !(exists|s: Seq<RegistryRecord>|
                s.len() == count && #[trigger] records_image(s) == whole),
            w matches Some(s) ==> s.len() == count && records_image(s) == whole,
        decreases count - k,
    {
        assert(RECORD_LEN * k + RECORD_LEN <= RECORD_LEN * count) by (nonlinear_arith)
            requires
                k < count,
        ;
        let pos = at + RECORD_LEN * k;
        proof {
            if let Some(s) = w {
                lemma_records_image_chunk(s, k as int);
                assert(img@.subrange(pos as int, pos + RECORD_LEN) =~= whole.subrange(
                    RECORD_LEN * k,
                    RECORD_LEN * k + RECORD_LEN,
                ));
            }
        }
        let rec = match parse_record(img, pos) {
            Some(rec) => rec,
            None => return None,
        };
        let ghost before = records@;
        records.push(rec);
        proof {
            assert(records@.drop_last() =~= before);
            assert(RECORD_LEN * (k + 1) == RECORD_LEN * k + RECORD_LEN) by (nonlinear_arith);
            assert(records_image(records@) =~= img@.subrange(at as int, at + RECORD_LEN * (k + 1)));
        }
        k = k + 1;
    }
    Some(records)
}


/// Whether the slots tile `[start, end)`.
fn check_packed(s: &Vec<RegistryRecord>, start: usize, end: usize) -> (r: bool)
    ensures
        r == packed(s@, start as int, end as int),
{
    let n = s.len();
    if n == 0 {
        return end == start;
    }
    if s[0].offset != start {
        return false;
    }
    let mut i: usize = 0;
    while i + 1 < n
        invariant
            n == s@.len(),
            n > 0,
            i < n,
            forall|a: int, b: int|
                0 <= a && b == a + 1 && b <= i ==> #[trigger] s@[b].offset == record_end(
                    #[trigger] s@[a],
                ),
        decreases n - i,
    {
        let cur = s[i];
        let next = s[i + 1];
        if cur.length > usize::MAX - cur.offset || next.offset != cur.offset + cur.length {
            proof {
                let a = i as int;
                let b = a + 1;
                assert(s@[b].offset != record_end(s@[a]));
            }
            return false;
        }
        i = i + 1;
    }
    let last = s[n - 1];
    if last.length > usize::MAX - last.offset {
        return false;
    }
    last.offset + last.length == end
}

/// Whether no plugin type occurs twice.
fn check_distinct(s: &Vec<RegistryRecord>) -> (r: bool)
    ensures
        r == distinct_types(s@),
{
    let n = s.len();
    let mut j: usize = 0;
    while j < n
        invariant
            n == s@.len(),
            j <= n,
            forall|a: int, b: int|
                0 <= a < b < j ==> #[trigger] s@[a].plugin_type != #[trigger] s@[b].plugin_type,
        decreases n - j,
    {
        let mut i: usize = 0;
        while i < j
            invariant
                n == s@.len(),
                i <= j < n,
                forall|a: int, b: int|
                    0 <= a < b < j ==> #[trigger] s@[a].plugin_type != #[trigger] s@[b].plugin_type,
                forall|a: int| 0 <= a < i ==> #[trigger] s@[a].plugin_type != s@[j as int].plugin_type,
            decreases j - i,
        {
            if s[i].plugin_type == s[j].plugin_type {
                return false;
            }
            i = i + 1;
        }
        j = j + 1;
    }
    true
}

impl PluginRegistry {
    /// The account's full byte image: leading bytes and payloads, then the registry.
    pub fn to_image(&self) -> (r: Vec<u8>)
        ensures
            r@ == account_image(*self),
    {
        let mut v: Vec<u8> = Vec::new();
        push_bytes(&mut v, self.data.as_slice());
        v.push(Key::PluginRegistryV1.to_byte());
        let mut k: usize = 0;
        while k < self.records.len()
            invariant
                k <= self.records@.len(),
                v@ == self.data@ + seq![key_byte(Key::PluginRegistryV1)] + records_image(
                    self.records@.subrange(0, k as int),
                ),
            decreases self.records@.len() - k,
        {
            let ghost before = v@;
            record_bytes(&self.records[k], &mut v);
            proof {
                let t = self.records@.subrange(0, k + 1);
                assert(t.drop_last() =~= self.records@.subrange(0, k as int));
            }
            k = k + 1;
        }
        assert(self.records@.subrange(0, k as int) =~= self.records@);
        let count = crate::asset::write_le_u64(self.records.len() as u64);
        push_bytes(&mut v, count.as_slice());
        assert(v@ =~= account_image(*self));
        v
    }

    /// Re-derives a registry from an account's byte image, refusing any image
    /// whose registry is malformed, overlapping or out of place. Every image of a
    /// well-formed registry is accepted and gives back its bytes and slots.
    #[verifier::rlimit(60)]
    pub fn from_image(img: &[u8], header_end: usize, max_len: usize) -> (r: Result<
        PluginRegistry,
        CoreError,
    >)
        ensures
            r matches Ok(reg) ==> reg.wf() && reg.header_end == header_end && reg.max_len
                == max_len && account_image(reg) == img@,
            r matches Err(e) ==> e == CoreError::DeserializationError || e
                == CoreError::IncorrectAccountKey || e == CoreError::InvalidRegistry,
            forall|reg: PluginRegistry|
                #![trigger account_image(reg)]
                reg.wf() && reg.header_end == header_end && reg.max_len == max_len
                    && account_image(reg) == img@ && reg.records@.len() <= usize::MAX ==> r is Ok
                    && r->Ok_0.data@ == reg.data@ && r->Ok_0.records@ == reg.records@,
    {
        let ghost w: Option<PluginRegistry> = if exists|reg: PluginRegistry|
            reg.wf() && reg.header_end == header_end && reg.max_len == max_len && account_image(
                reg,
            ) == img@ && reg.records@.len() <= usize::MAX {
            Some(
                choose|reg: PluginRegistry|
                    reg.wf() && reg.header_end == header_end && reg.max_len == max_len
                        && account_image(reg) == img@ && reg.records@.len() <= usize::MAX,
            )
        } else {
            None
        };
        let len = img.len();
        proof {
            if let Some(reg) = w {
                lemma_records_image_len(reg.records@);
            }
        }
        if len < 9 {
            return Err(CoreError::DeserializationError);
        }
        let count_bytes = read_array::<8>(img, len - 8);
        let count64 = crate::asset::read_le_u64(&count_bytes);
        let room = (len - 9) / RECORD_LEN;
        proof {
            if let Some(reg) = w {
                let n = reg.records@.len();
                assert(count_bytes@ =~= le_bytes(n as u64));
                lemma_le_round_trip(n as u64);
                assert(n <= room) by (nonlinear_arith)
                    requires
                        RECORD_LEN * n <= len - 9,
                        room == (len - 9) / 50,
                        RECORD_LEN == 50,
                ;
            }
        }
        if count64 > room as u64 {
            return Err(CoreError::DeserializationError);
        }
        let count = count64 as usize;
        assert(RECORD_LEN * count <= len - 9) by (nonlinear_arith)
            requires
                count <= room,
                room == (len - 9) / 50,
                RECORD_LEN == 50,
                len >= 9,
        ;
        let start = len - 9 - RECORD_LEN * count;
        proof {
            if let Some(reg) = w {
                assert(start == reg.data@.len());
                assert(img@[start as int] == registry_image(reg.records@)[0]);
                assert(records_image(reg.records@) =~= img@.subrange(
                    start + 1,
                    start + 1 + RECORD_LEN * count,
                ));
            }
        }
        if img[start] != 4 {
            return Err(CoreError::IncorrectAccountKey);
        }
        let records = match parse_records(img, start + 1, count) {
            Some(v) => v,
            None => return Err(CoreError::DeserializationError),
        };
        proof {
            if let Some(reg) = w {
                lemma_records_image_injective(records@, reg.records@);
            }
        }
        if header_end < HEADER_LEN || start < header_end || len > max_len {
            return Err(CoreError::InvalidRegistry);
        }
        proof {
            if let Some(reg) = w {
                assert(img@.subrange(header_end - HEADER_LEN, header_end as int)
                    =~= reg.data@.subrange(header_end - HEADER_LEN, header_end as int));
                assert(img@[header_end - HEADER_LEN] == header_image(start as int)[0]);
            }
        }
        if img[header_end - HEADER_LEN] != 3 {
            return Err(CoreError::IncorrectAccountKey);
        }
        let offset_bytes = read_array::<8>(img, header_end - 8);
        let registry_offset = crate::asset::read_le_u64(&offset_bytes);
        proof {
            if let Some(reg) = w {
                assert(offset_bytes@ =~= header_image(start as int).subrange(1, 9));
                assert(offset_bytes@ =~= le_bytes(start as u64));
                lemma_le_round_trip(start as u64);
            }
        }
        if registry_offset != start as u64 {
            return Err(CoreError::InvalidRegistry);
        }
        proof {
            lemma_le_bytes_of(offset_bytes@);
            assert(img@.subrange(header_end - HEADER_LEN, header_end as int) =~= header_image(
                start as int,
            ));
        }
        if !check_packed(&records, header_end, start) || !check_distinct(&records) {
            return Err(CoreError::InvalidRegistry);
        }
        let data = vstd::slice::slice_to_vec(vstd::slice::slice_subrange(img, 0, start));
        let reg = PluginRegistry { header_end, max_len, records, data };
        proof {
            lemma_le_bytes_of(count_bytes@);
            assert(count as u64 == count64);
        }
        assert(account_image(reg) =~= img@);
        assert(reg.data@.subrange(header_end - HEADER_LEN, header_end as int) =~= img@.subrange(
            header_end - HEADER_LEN,
            header_end as int,
        ));
        assert(image_len(reg.data@.len() as int, reg.records@.len() as int) == len);
        proof {
            assert forall|other: PluginRegistry|
                #![trigger account_image(other)]
                other.wf() && other.header_end == header_end && other.max_len == max_len
                    && account_image(other) == img@ && other.records@.len()
                    <= usize::MAX implies reg.data@ == other.data@ && reg.records@
                    == other.records@ by {
                lemma_account_image_injective(reg, other);
            }
        }
        Ok(reg)
    }
}

/// Slot `k`'s bytes sit at `RECORD_LEN * k` in the slots' image.
pub proof fn lemma_records_image_chunk(s: Seq<RegistryRecord>, k: int)
    requires
        0 <= k < s.len(),
    ensures
        records_image(s).subrange(RECORD_LEN * k, RECORD_LEN * k + RECORD_LEN) == record_image(s[k]),
    decreases s.len(),
{
    let p = s.drop_last();
    lemma_records_image_len(p);
    lemma_records_image_len(s);
    if k == s.len() - 1 {
        assert(RECORD_LEN * k == RECORD_LEN * p.len());
        assert(records_image(s).subrange(RECORD_LEN * k, RECORD_LEN * k + RECORD_LEN) =~= record_image(s[k]));
    } else {
        lemma_records_image_chunk(p, k);
        assert(RECORD_LEN * k + RECORD_LEN <= RECORD_LEN * p.len()) by (nonlinear_arith)
            requires
                k < p.len(),
                RECORD_LEN == 50,
        ;
        assert(records_image(s).subrange(RECORD_LEN * k, RECORD_LEN * k + RECORD_LEN) =~= records_image(p).subrange(RECORD_LEN * k, RECORD_LEN * k + RECORD_LEN));
    }
}

/// Equal slot images come from equal slots.
pub proof fn lemma_record_image_injective(r1: RegistryRecord, r2: RegistryRecord)
    requires
        record_image(r1) == record_image(r2),
    ensures
        r1 == r2,
{
    let i1 = record_image(r1);
    let i2 = record_image(r2);
    assert(i1[0] == i2[0]);
    assert(i1[1] == i2[1]);
    assert(authority_image(r1.authority) =~= i1.subrange(1, 34));
    assert(authority_image(r2.authority) =~= i2.subrange(1, 34));
    assert(le_bytes(r1.offset as u64) =~= i1.subrange(34, 42));
    assert(le_bytes(r2.offset as u64) =~= i2.subrange(34, 42));
    assert(le_bytes(r1.length as u64) =~= i1.subrange(42, 50));
    assert(le_bytes(r2.length as u64) =~= i2.subrange(42, 50));
    lemma_le_round_trip(r1.offset as u64);
    lemma_le_round_trip(r2.offset as u64);
    lemma_le_round_trip(r1.length as u64);
    lemma_le_round_trip(r2.length as u64);
    assert(r1.offset == r2.offset);
    assert(r1.length == r2.length);
    assert(seq![plugin_type_byte(r1.plugin_type)] =~= i1.subrange(0, 1));
    assert(seq![plugin_type_byte(r2.plugin_type)] =~= i2.subrange(0, 1));
    assert(i1.subrange(0, 1)[0] == i1[0]);
    assert(i2.subrange(0, 1)[0] == i2[0]);
    assert(seq![plugin_type_byte(r1.plugin_type)][0] == plugin_type_byte(r1.plugin_type));
    assert(seq![plugin_type_byte(r2.plugin_type)][0] == plugin_type_byte(r2.plugin_type));
    assert(plugin_type_byte(r1.plugin_type) == plugin_type_byte(r2.plugin_type));
    assert(r1.plugin_type == r2.plugin_type) by {
        match r1.plugin_type {
            _ => {},
        }
    }
    let x1 = authority_image(r1.authority);
    let x2 = authority_image(r2.authority);
    assert(x1 == x2);
    assert(x1[0] == x2[0]);
    match r1.authority {
        Authority::Address { address: a1 } => {
            match r2.authority {
                Authority::Address { address: a2 } => {
                    assert(a1@ =~= x1.subrange(1, 33));
                    assert(a2@ =~= x2.subrange(1, 33));
                    assert(a1 =~= a2);
                },
                _ => {},
            }
        },
        _ => {},
    }
    assert(r1.authority == r2.authority);
}

/// Equal images of equally many slots come from equal slots.
pub proof fn lemma_records_image_injective(s1: Seq<RegistryRecord>, s2: Seq<RegistryRecord>)
    requires
        records_image(s1) == records_image(s2),
        s1.len() == s2.len(),
    ensures
        s1 == s2,
    decreases s1.len(),
{
    if s1.len() > 0 {
        let p1 = s1.drop_last();
        let p2 = s2.drop_last();
        lemma_records_image_len(p1);
        lemma_records_image_len(p2);
        let n = records_image(p1).len() as int;
        assert(records_image(p1) =~= records_image(s1).subrange(0, n));
        assert(records_image(p2) =~= records_image(s2).subrange(0, n));
        assert(record_image(s1.last()) =~= records_image(s1).subrange(n, n + RECORD_LEN));
        assert(record_image(s2.last()) =~= records_image(s2).subrange(n, n + RECORD_LEN));
        lemma_records_image_injective(p1, p2);
        lemma_record_image_injective(s1.last(), s2.last());
        assert forall|i: int| 0 <= i < s1.len() implies s1[i] == s2[i] by {
            if i < s1.len() - 1 {
                assert(s1[i] == p1[i] && s2[i] == p2[i]);
            }
        }
        assert(s1 =~= s2);
    }
}

/// Equal account images come from registries with the same bytes and slots.
pub proof fn lemma_account_image_injective(r1: PluginRegistry, r2: PluginRegistry)
    requires
        account_image(r1) == account_image(r2),
        r1.records@.len() <= usize::MAX,
        r2.records@.len() <= usize::MAX,
    ensures
        r1.data@ == r2.data@,
        r1.records@ == r2.records@,
{
    let img = account_image(r1);
    let n1 = r1.records@.len();
    let n2 = r2.records@.len();
    lemma_records_image_len(r1.records@);
    lemma_records_image_len(r2.records@);
    let l = img.len() as int;
    assert(le_bytes(n1 as u64) =~= img.subrange(l - 8, l));
    assert(le_bytes(n2 as u64) =~= account_image(r2).subrange(l - 8, l));
    lemma_le_round_trip(n1 as u64);
    lemma_le_round_trip(n2 as u64);
    assert(n1 == n2);
    let d = r1.data@.len() as int;
    assert(r2.data@.len() == d);
    assert(r1.data@ =~= img.subrange(0, d));
    assert(r2.data@ =~= account_image(r2).subrange(0, d));
    let m = records_image(r1.records@).len() as int;
    assert(records_image(r1.records@) =~= img.subrange(d + 1, d + 1 + m));
    assert(records_image(r2.records@) =~= account_image(r2).subrange(d + 1, d + 1 + m));
    lemma_records_image_injective(r1.records@, r2.records@);
}

} // verus!
