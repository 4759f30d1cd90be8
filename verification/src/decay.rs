//! Decay-photon tables of all materials, packed for the device.
//!
//! At a collision the device emits one photon of a decay line: it picks a
//! channel of the material in proportion to the channels' cross sections, and a
//! line of that channel by its cumulative intensities. The channels of all
//! materials stand one after the other and so do their lines; per-material and
//! per-channel tables say where each material and each channel begins.
use crate::ieee::Real;
use crate::layout::DECAY_META_COLS;
use crate::pack::{
    append, at_least_one, count_or_one, filled, joined, joined_table_stands_at_its_offset,
    lemma_joined_push, lemma_joined_take, offset, padded, zeros,
};
use vstd::prelude::*;
use vstd::slice::slice_subrange;

verus! {

/// Decay-photon table of one material.
#[derive(Debug, Clone)]
pub struct MaterialDecayTable {
    /// Aggregate production cross section per grid point.
    pub photon_prod: Vec<Real>,
    /// Cross-section row of each channel, one value per grid point.
    pub ch_xs: Vec<Real>,
    /// Radionuclide that each channel's photons come from.
    pub ch_parent_id: Vec<u32>,
    /// Line energies of all channels.
    pub ch_energies: Vec<Real>,
    /// Cumulative line intensities, parallel to the energies.
    pub ch_intensity_cdf: Vec<Real>,
    /// First line of each channel.
    pub ch_e_base: Vec<u32>,
    /// Number of lines of each channel.
    pub ch_e_count: Vec<u32>,
}

impl Default for MaterialDecayTable {
    fn default() -> (r: MaterialDecayTable)
        ensures
            r.photon_prod@.len() == 0,
            r.ch_xs@.len() == 0,
            r.ch_parent_id@.len() == 0,
            r.ch_energies@.len() == 0,
            r.ch_intensity_cdf@.len() == 0,
            r.ch_e_base@.len() == 0,
            r.ch_e_count@.len() == 0,
    {
        MaterialDecayTable {
            photon_prod: Vec::new(),
            ch_xs: Vec::new(),
            ch_parent_id: Vec::new(),
            ch_energies: Vec::new(),
            ch_intensity_cdf: Vec::new(),
            ch_e_base: Vec::new(),
            ch_e_count: Vec::new(),
        }
    }
}

/// One decay channel.
#[verifier::ext_equal]
pub struct Channel {
    pub parent: u32,
    pub energies: Seq<Real>,
    pub cdf: Seq<Real>,
}

pub open spec fn energies_of(channels: Seq<Channel>) -> Seq<Seq<Real>> {
    channels.map_values(|c: Channel| c.energies)
}

pub open spec fn cdfs_of(channels: Seq<Channel>) -> Seq<Seq<Real>> {
    channels.map_values(|c: Channel| c.cdf)
}

pub open spec fn parents_of(channels: Seq<Channel>) -> Seq<u32> {
    channels.map_values(|c: Channel| c.parent)
}

impl MaterialDecayTable {
    pub open spec fn channel(self, c: int) -> Channel {
        let from = self.ch_e_base@[c] as int;
        let to = self.ch_e_base@[c] + self.ch_e_count@[c];
        Channel {
            parent: self.ch_parent_id@[c],
            energies: self.ch_energies@.subrange(from, to),
            cdf: self.ch_intensity_cdf@.subrange(from, to),
        }
    }

    pub open spec fn channels(self) -> Seq<Channel> {
        Seq::new(self.ch_parent_id@.len(), |c: int| self.channel(c))
    }

    /// Aggregate row of the material: all zero where the table has none.
    pub open spec fn production_row(self, n_grid: nat) -> Seq<Real> {
        if self.photon_prod@.len() == 0 {
            zeros(n_grid)
        } else {
            self.photon_prod@
        }
    }

    /// Every channel's lines lie in the line tables, and a material with
    /// channels has an aggregate value per grid point.
    pub open spec fn wf(self, n_grid: nat) -> bool {
        &&& self.ch_e_base@.len() == self.ch_parent_id@.len()
        &&& self.ch_e_count@.len() == self.ch_parent_id@.len()
        &&& self.photon_prod@.len() == n_grid || self.ch_parent_id@.len() == 0
        &&& forall|c: int|
            0 <= c < self.ch_parent_id@.len() ==> {
                &&& #[trigger] self.ch_e_base@[c] + self.ch_e_count@[c] <= self.ch_energies@.len()
                &&& self.ch_e_base@[c] + self.ch_e_count@[c] <= self.ch_intensity_cdf@.len()
            }
    }

    /// Number of channels.
    pub fn n_channels(&self) -> (r: usize)
        ensures
            r == self.channels().len(),
    {
        self.ch_parent_id.len()
    }

    /// Table of a material that emits nothing.
    pub fn void(n_grid: usize) -> (r: MaterialDecayTable)
        ensures
            r.photon_prod@ == zeros(n_grid as nat),
            r.ch_xs@.len() == 0,
            r.ch_parent_id@.len() == 0,
            r.ch_energies@.len() == 0,
            r.ch_intensity_cdf@.len() == 0,
            r.ch_e_base@.len() == 0,
            r.ch_e_count@.len() == 0,
            r.wf(n_grid as nat),
    {
        MaterialDecayTable { photon_prod: filled(n_grid, Real::zero()), ..Default::default() }
    }
}

pub open spec fn production_rows(tables: Seq<MaterialDecayTable>, n_grid: nat) -> Seq<Seq<Real>> {
    tables.map_values(|t: MaterialDecayTable| t.production_row(n_grid))
}

pub open spec fn xs_tables(tables: Seq<MaterialDecayTable>) -> Seq<Seq<Real>> {
    tables.map_values(|t: MaterialDecayTable| t.ch_xs@)
}

pub open spec fn channel_tables(tables: Seq<MaterialDecayTable>) -> Seq<Seq<Channel>> {
    tables.map_values(|t: MaterialDecayTable| t.channels())
}

/// The channels of all materials, in order.
pub open spec fn all_channels(tables: Seq<MaterialDecayTable>) -> Seq<Channel> {
    joined(channel_tables(tables))
}

/// `e_meta` holds the first line and the number of lines of each channel.
pub open spec fn holds_line_ranges(e_meta: Seq<u32>, channels: Seq<Channel>) -> bool {
    &&& e_meta.len() == 2 * channels.len()
    &&& forall|k: int|
        0 <= k < channels.len() ==> {
            &&& #[trigger] e_meta[2 * k] == offset(energies_of(channels), k)
            &&& e_meta[2 * k + 1] == channels[k].energies.len()
        }
}

/// `meta` holds, of each of the first `n` materials, the start of its aggregate
/// row, its first channel and its number of channels.
pub open spec fn holds_material_ranges(
    meta: Seq<u32>,
    tables: Seq<MaterialDecayTable>,
    n_grid: nat,
    n: int,
) -> bool {
    forall|m: int|
        0 <= m < n ==> {
            &&& #[trigger] meta[m * DECAY_META_COLS] == offset(production_rows(tables, n_grid), m)
            &&& meta[m * DECAY_META_COLS + 1] == offset(channel_tables(tables), m)
            &&& meta[m * DECAY_META_COLS + 2] == tables[m].channels().len()
        }
}

/// Decay-photon buffers of a launch.
#[derive(Debug, Clone)]
pub struct DecayPhotonInputs {
    /// `1` where decay photons are emitted, `0` where not.
    pub decay_enabled: Vec<u32>,
    pub photon_prod: Vec<Real>,
    pub ch_xs: Vec<Real>,
    pub ch_parent_id: Vec<u32>,
    /// First line and number of lines of each channel.
    pub ch_e_meta: Vec<u32>,
    pub ch_energies: Vec<Real>,
    pub ch_intensity_cdf: Vec<Real>,
    /// Start of the aggregate row, first channel and number of channels of each
    /// material.
    pub meta: Vec<u32>,
}

impl DecayPhotonInputs {
    /// No buffer is empty: a device binding cannot be.
    pub open spec fn bindable(self) -> bool {
        &&& self.decay_enabled@.len() > 0
        &&& self.photon_prod@.len() > 0
        &&& self.ch_xs@.len() > 0
        &&& self.ch_parent_id@.len() > 0
        &&& self.ch_e_meta@.len() > 0
        &&& self.ch_energies@.len() > 0
        &&& self.ch_intensity_cdf@.len() > 0
        &&& self.meta@.len() > 0
    }

    /// The buffers hold all the materials' tables, with one zero (two for the
    /// line ranges) in place of an empty one.
    pub open spec fn packs(self, tables: Seq<MaterialDecayTable>, n_grid: nat) -> bool {
        let channels = all_channels(tables);
        &&& self.decay_enabled@ == seq![1u32]
        &&& self.photon_prod@ == padded(
            joined(production_rows(tables, n_grid)),
            1,
            Real { bits: 0 },
        )
        &&& self.ch_xs@ == padded(joined(xs_tables(tables)), 1, Real { bits: 0 })
        &&& self.ch_parent_id@ == padded(parents_of(channels), 1, 0u32)
        &&& self.ch_energies@ == padded(joined(energies_of(channels)), 1, Real { bits: 0 })
        &&& self.ch_intensity_cdf@ == padded(joined(cdfs_of(channels)), 1, Real { bits: 0 })
        &&& channels.len() == 0 ==> self.ch_e_meta@ == seq![0u32, 0u32]
        &&& channels.len() > 0 ==> holds_line_ranges(self.ch_e_meta@, channels)
        &&& tables.len() == 0 ==> self.meta@ == seq![0u32, 0u32, 0u32]
        &&& tables.len() > 0 ==> self.meta@.len() == tables.len() * DECAY_META_COLS
        &&& holds_material_ranges(self.meta@, tables, n_grid, tables.len() as int)
    }

    /// Buffers of a launch that emits no decay photons.
    pub fn decay_off(n_materials: usize, n_grid: usize) -> (r: DecayPhotonInputs)
        requires
            n_materials * DECAY_META_COLS <= usize::MAX,
        ensures
            r.decay_enabled@ == seq![0u32],
            r.photon_prod@ == zeros(count_or_one(n_grid)),
            r.ch_xs@ == r.photon_prod@,
            r.ch_parent_id@ == seq![0u32],
            r.ch_e_meta@ == seq![0u32, 0u32],
            r.ch_energies@ == zeros(1),
            r.ch_intensity_cdf@ == zeros(1),
            r.meta@ == Seq::new(
                (count_or_one(n_materials) * DECAY_META_COLS) as nat,
                |i: int| 0u32,
            ),
            r.bindable(),
    {
        let n_mat = at_least_one(n_materials);
        let row = at_least_one(n_grid);
        assert(n_mat * DECAY_META_COLS == n_mat * 3);
        DecayPhotonInputs {
            decay_enabled: filled(1, 0u32),
            photon_prod: filled(row, Real::zero()),
            ch_xs: filled(row, Real::zero()),
            ch_parent_id: filled(1, 0u32),
            ch_e_meta: filled(2, 0u32),
            ch_energies: filled(1, Real::zero()),
            ch_intensity_cdf: filled(1, Real::zero()),
            meta: filled(n_mat * DECAY_META_COLS, 0u32),
        }
    }

    /// Appends the lines of every channel of a material.
    fn append_channels(&mut self, t: &MaterialDecayTable, n_grid: Ghost<nat>, before: Ghost<Seq<Channel>>)
        requires
            t.wf(n_grid@),
            old(self).ch_energies@ == joined(energies_of(before@)),
            old(self).ch_intensity_cdf@ == joined(cdfs_of(before@)),
            holds_line_ranges(old(self).ch_e_meta@, before@),
            joined(energies_of(before@ + t.channels())).len() <= u32::MAX,
        ensures
            final(self).ch_energies@ == joined(energies_of(before@ + t.channels())),
            final(self).ch_intensity_cdf@ == joined(cdfs_of(before@ + t.channels())),
            holds_line_ranges(final(self).ch_e_meta@, before@ + t.channels()),
            final(self).decay_enabled == old(self).decay_enabled,
            final(self).photon_prod == old(self).photon_prod,
            final(self).ch_xs == old(self).ch_xs,
            final(self).ch_parent_id == old(self).ch_parent_id,
            final(self).meta == old(self).meta,
    {
        let mut c: usize = 0;
        let n: usize = t.n_channels();
        assert(before@ + t.channels().take(0) =~= before@);
        while c < n
            invariant
                c <= n,
                n == t.channels().len(),
                t.wf(n_grid@),
                self.ch_energies@ == joined(energies_of(before@ + t.channels().take(c as int))),
                self.ch_intensity_cdf@ == joined(cdfs_of(before@ + t.channels().take(c as int))),
                holds_line_ranges(self.ch_e_meta@, before@ + t.channels().take(c as int)),
                joined(energies_of(before@ + t.channels())).len() <= u32::MAX,
                self.decay_enabled == old(self).decay_enabled,
                self.photon_prod == old(self).photon_prod,
                self.ch_xs == old(self).ch_xs,
                self.ch_parent_id == old(self).ch_parent_id,
                self.meta == old(self).meta,
            decreases n - c,
        {
            let ghost all = before@ + t.channels();
            let ghost done = before@ + t.channels().take(c as int);
            let ghost ch = t.channel(c as int);
            let ghost k = done.len() as int;
            let ghost meta0 = self.ch_e_meta@;
            proof {
                assert(t.channels()[c as int] == ch);
                assert(all[k] == ch);
                assert(energies_of(all).take(k) =~= energies_of(done));
                assert(before@ + t.channels().take(c + 1) =~= done.push(ch));
                assert(energies_of(done.push(ch)) =~= energies_of(done).push(ch.energies));
                assert(cdfs_of(done.push(ch)) =~= cdfs_of(done).push(ch.cdf));
                lemma_joined_push(energies_of(done), ch.energies);
                lemma_joined_push(cdfs_of(done), ch.cdf);
                joined_table_stands_at_its_offset(energies_of(all), k);
                assert(energies_of(all)[k] == ch.energies);
                assert(t.ch_e_base@[c as int] + t.ch_e_count@[c as int] <= t.ch_energies@.len());
            }
            let count: u32 = t.ch_e_count[c];
            let from: usize = t.ch_e_base[c] as usize;
            assert(t.ch_energies.len() == t.ch_energies@.len());
            let to: usize = from + count as usize;
            let base: u32 = self.ch_energies.len() as u32;
            self.ch_e_meta.push(base);
            self.ch_e_meta.push(count);
            append(&mut self.ch_energies, slice_subrange(t.ch_energies.as_slice(), from, to));
            append(
                &mut self.ch_intensity_cdf,
                slice_subrange(t.ch_intensity_cdf.as_slice(), from, to),
            );
            proof {
                let now = done.push(ch);
                assert forall|j: int| 0 <= j < now.len() implies {
                    &&& #[trigger] self.ch_e_meta@[2 * j] == offset(energies_of(now), j)
                    &&& self.ch_e_meta@[2 * j + 1] == now[j].energies.len()
                } by {
                    assert(energies_of(now).take(j) =~= energies_of(done).take(j));
                    if j < k {
                        assert(meta0[2 * j] == offset(energies_of(done), j));
                    } else {
                        assert(energies_of(done).take(j) =~= energies_of(done));
                    }
                }
            }
            c = c + 1;
        }
        assert(t.channels().take(n as int) =~= t.channels());
    }

    /// Buffers of a launch on the given materials.
    pub fn from_materials(tables: &[MaterialDecayTable], n_grid: usize) -> (r: DecayPhotonInputs)
        requires
            forall|m: int| 0 <= m < tables.len() ==> (#[trigger] tables@[m]).wf(n_grid as nat),
            tables.len() * DECAY_META_COLS <= usize::MAX,
            joined(production_rows(tables@, n_grid as nat)).len() <= u32::MAX,
            all_channels(tables@).len() <= u32::MAX,
            joined(energies_of(all_channels(tables@))).len() <= u32::MAX,
        ensures
            r.packs(tables@, n_grid as nat),
            r.bindable(),
    {
        let ghost g = n_grid as nat;
        let ghost rows = production_rows(tables@, g);
        let ghost xs = xs_tables(tables@);
        let ghost chs = channel_tables(tables@);
        let n_mat = at_least_one(tables.len());
        assert(n_mat * DECAY_META_COLS == n_mat * 3);
        let mut out = DecayPhotonInputs {
            decay_enabled: filled(1, 1u32),
            photon_prod: Vec::new(),
            ch_xs: Vec::new(),
            ch_parent_id: Vec::new(),
            ch_e_meta: Vec::new(),
            ch_energies: Vec::new(),
            ch_intensity_cdf: Vec::new(),
            meta: filled(n_mat * DECAY_META_COLS, 0u32),
        };
        proof {
            assert(rows.take(0) =~= Seq::empty());
            assert(xs.take(0) =~= Seq::empty());
            assert(chs.take(0) =~= Seq::empty());
            assert(out.ch_parent_id@ =~= parents_of(joined(chs.take(0))));
            assert(energies_of(joined(chs.take(0))) =~= Seq::empty());
            assert(cdfs_of(joined(chs.take(0))) =~= Seq::empty());
        }
        let mut m: usize = 0;
        while m < tables.len()
            invariant
                m <= tables.len(),
                tables.len() > 0 ==> n_mat == tables.len(),
                n_mat * DECAY_META_COLS == n_mat * 3,
                n_mat * DECAY_META_COLS <= usize::MAX,
                g == n_grid,
                rows == production_rows(tables@, g),
                xs == xs_tables(tables@),
                chs == channel_tables(tables@),
                forall|m: int| 0 <= m < tables.len() ==> (#[trigger] tables@[m]).wf(g),
                joined(rows).len() <= u32::MAX,
                joined(chs).len() <= u32::MAX,
                joined(energies_of(joined(chs))).len() <= u32::MAX,
                out.decay_enabled@ == seq![1u32],
                out.photon_prod@ == joined(rows.take(m as int)),
                out.ch_xs@ == joined(xs.take(m as int)),
                out.ch_parent_id@ == parents_of(joined(chs.take(m as int))),
                out.ch_energies@ == joined(energies_of(joined(chs.take(m as int)))),
                out.ch_intensity_cdf@ == joined(cdfs_of(joined(chs.take(m as int)))),
                holds_line_ranges(out.ch_e_meta@, joined(chs.take(m as int))),
                out.meta@.len() == n_mat * DECAY_META_COLS,
                holds_material_ranges(out.meta@, tables@, g, m as int),
                m == 0 ==> out.meta@ == Seq::new(out.meta@.len(), |i: int| 0u32),
            decreases tables.len() - m,
        {
            let t = &tables[m];
            let ghost before = joined(chs.take(m as int));
            let ghost meta0 = out.meta@;
            proof {
                assert(rows[m as int] == t.production_row(g));
                assert(xs[m as int] == t.ch_xs@);
                assert(chs[m as int] == t.channels());
                lemma_joined_take(rows, m as int);
                lemma_joined_take(xs, m as int);
                lemma_joined_take(chs, m as int);
                joined_table_stands_at_its_offset(rows, m as int);
                joined_table_stands_at_its_offset(chs, m as int);
                lemma_prefix_lines(joined(chs), (before + t.channels()).len() as int);
                lemma_joined_prefix(chs, m + 1);
                assert(m * DECAY_META_COLS == m * 3);
                assert(m * 3 + 3 <= n_mat * 3);
            }
            let at: usize = m * DECAY_META_COLS;
            out.meta.set(at, out.photon_prod.len() as u32);
            out.meta.set(at + 1, out.ch_parent_id.len() as u32);
            out.meta.set(at + 2, t.n_channels() as u32);
            if t.photon_prod.len() == 0 {
                append(&mut out.photon_prod, filled(n_grid, Real::zero()).as_slice());
            } else {
                append(&mut out.photon_prod, t.photon_prod.as_slice());
            }
            append(&mut out.ch_xs, t.ch_xs.as_slice());
            append(&mut out.ch_parent_id, t.ch_parent_id.as_slice());
            assert(out.ch_parent_id@ =~= parents_of(before + t.channels()));
            out.append_channels(t, Ghost(g), Ghost(before));
            proof {
                assert forall|j: int| 0 <= j < m + 1 implies {
                    &&& #[trigger] out.meta@[j * DECAY_META_COLS] == offset(rows, j)
                    &&& out.meta@[j * DECAY_META_COLS + 1] == offset(chs, j)
                    &&& out.meta@[j * DECAY_META_COLS + 2] == tables@[j].channels().len()
                } by {
                    assert(j * DECAY_META_COLS == j * 3);
                    if j < m {
                        assert(meta0[j * DECAY_META_COLS] == offset(rows, j));
                    }
                }
            }
            m = m + 1;
        }
        proof {
            assert(rows.take(m as int) =~= rows);
            assert(xs.take(m as int) =~= xs);
            assert(chs.take(m as int) =~= chs);
        }
        if out.photon_prod.len() == 0 {
            out.photon_prod.push(Real::zero());
        }
        if out.ch_xs.len() == 0 {
            out.ch_xs.push(Real::zero());
        }
        if out.ch_parent_id.len() == 0 {
            out.ch_parent_id.push(0u32);
        }
        if out.ch_e_meta.len() == 0 {
            out.ch_e_meta.push(0u32);
            out.ch_e_meta.push(0u32);
        }
        if out.ch_energies.len() == 0 {
            out.ch_energies.push(Real::zero());
        }
        if out.ch_intensity_cdf.len() == 0 {
            out.ch_intensity_cdf.push(Real::zero());
        }
        proof {
            let channels = all_channels(tables@);
            let zero = Real { bits: 0 };
            assert(out.photon_prod@ =~= padded(joined(rows), 1, zero));
            assert(out.ch_xs@ =~= padded(joined(xs), 1, zero));
            assert(out.ch_parent_id@ =~= padded(parents_of(channels), 1, 0u32));
            assert(out.ch_energies@ =~= padded(joined(energies_of(channels)), 1, zero));
            assert(out.ch_intensity_cdf@ =~= padded(joined(cdfs_of(channels)), 1, zero));
            if channels.len() == 0 {
                assert(out.ch_e_meta@ =~= seq![0u32, 0u32]);
            }
            if tables.len() == 0 {
                assert(out.meta@ =~= seq![0u32, 0u32, 0u32]);
            }
        }
        out
    }
}

/// The lines of the first `n` channels are a prefix of all lines.
proof fn lemma_prefix_lines(channels: Seq<Channel>, n: int)
    requires
        0 <= n <= channels.len(),
    ensures
        joined(energies_of(channels.take(n))).len() <= joined(energies_of(channels)).len(),
    decreases channels.len() - n,
{
    if n < channels.len() {
        lemma_prefix_lines(channels, n + 1);
        lemma_joined_take(energies_of(channels), n);
        assert(energies_of(channels).take(n) =~= energies_of(channels.take(n)));
        assert(energies_of(channels).take(n + 1) =~= energies_of(channels.take(n + 1)));
    } else {
        assert(channels.take(n) =~= channels);
    }
}

/// The first tables joined are a prefix of all of them joined.
proof fn lemma_joined_prefix<A>(parts: Seq<Seq<A>>, n: int)
    requires
        0 <= n <= parts.len(),
    ensures
        joined(parts.take(n)).len() <= joined(parts).len(),
        joined(parts).take(joined(parts.take(n)).len() as int) == joined(parts.take(n)),
    decreases parts.len() - n,
{
    if n < parts.len() {
        lemma_joined_prefix(parts, n + 1);
        lemma_joined_take(parts, n);
        let k = joined(parts.take(n)).len() as int;
        assert(joined(parts).take(k) =~= joined(parts.take(n + 1)).take(k));
        assert(joined(parts.take(n + 1)).take(k) =~= joined(parts.take(n)));
    } else {
        assert(parts.take(n) =~= parts);
        assert(joined(parts).take(joined(parts).len() as int) =~= joined(parts));
    }
}

/// Every channel has as many cumulative intensities as lines.
proof fn lemma_channels_are_parallel(tables: Seq<MaterialDecayTable>, n_grid: nat)
    requires
        forall|j: int| 0 <= j < tables.len() ==> (#[trigger] tables[j]).wf(n_grid),
    ensures
        forall|k: int|
            0 <= k < all_channels(tables).len() ==> (#[trigger] all_channels(
                tables,
            )[k]).energies.len() == all_channels(tables)[k].cdf.len(),
    decreases tables.len(),
{
    if tables.len() > 0 {
        let rest = tables.drop_last();
        let t = tables.last();
        assert(tables[tables.len() - 1].wf(n_grid));
        assert forall|j: int| 0 <= j < rest.len() implies (#[trigger] rest[j]).wf(n_grid) by {
            assert(tables[j].wf(n_grid));
        }
        lemma_channels_are_parallel(rest, n_grid);
        assert(channel_tables(tables).drop_last() =~= channel_tables(rest));
        assert forall|k: int| 0 <= k < all_channels(tables).len() implies (#[trigger] all_channels(
            tables,
        )[k]).energies.len() == all_channels(tables)[k].cdf.len() by {
            let n = all_channels(rest).len();
            if k < n {
                assert(all_channels(tables)[k] == all_channels(rest)[k]);
            } else {
                let c = k - n;
                assert(all_channels(tables)[k] == t.channel(c));
                assert(t.ch_e_base@[c] + t.ch_e_count@[c] <= t.ch_energies@.len());
            }
        }
    }
}

proof fn lemma_offsets_are_parallel(channels: Seq<Channel>, k: int)
    requires
        0 <= k <= channels.len(),
        forall|j: int|
            0 <= j < channels.len() ==> (#[trigger] channels[j]).energies.len()
                == channels[j].cdf.len(),
    ensures
        offset(energies_of(channels), k) == offset(cdfs_of(channels), k),
    decreases k,
{
    if k > 0 {
        lemma_offsets_are_parallel(channels, k - 1);
        lemma_joined_take(energies_of(channels), k - 1);
        lemma_joined_take(cdfs_of(channels), k - 1);
        assert(channels[k - 1].energies.len() == channels[k - 1].cdf.len());
    } else {
        assert(energies_of(channels).take(0) =~= Seq::empty());
        assert(cdfs_of(channels).take(0) =~= Seq::empty());
    }
}

/// Material `m`'s aggregate row stands where its entry says, and its channel `c`
/// is the packed channel that many places after its first: with its own parent
/// and its own lines, all of them in the buffers.
pub proof fn packed_channels_are_the_materials_own(
    r: DecayPhotonInputs,
    tables: Seq<MaterialDecayTable>,
    n_grid: nat,
    m: int,
    c: int,
)
    requires
        r.packs(tables, n_grid),
        forall|j: int| 0 <= j < tables.len() ==> (#[trigger] tables[j]).wf(n_grid),
        0 <= m < tables.len(),
        0 <= c < tables[m].channels().len(),
    ensures
        ({
            let t = tables[m];
            let row = r.meta@[m * DECAY_META_COLS] as int;
            let k = r.meta@[m * DECAY_META_COLS + 1] + c;
            let line = r.ch_e_meta@[2 * k] as int;
            let base = t.ch_e_base@[c] as int;
            let count = t.ch_e_count@[c] as int;
            &&& r.meta@[m * DECAY_META_COLS + 2] == t.channels().len()
            &&& row + n_grid <= r.photon_prod@.len()
            &&& k < r.ch_parent_id@.len()
            &&& 2 * k + 1 < r.ch_e_meta@.len()
            &&& line + count <= r.ch_energies@.len()
            &&& line + count <= r.ch_intensity_cdf@.len()
            &&& r.photon_prod@.subrange(row, row + n_grid) == t.photon_prod@
            &&& r.ch_parent_id@[k] == t.ch_parent_id@[c]
            &&& r.ch_e_meta@[2 * k + 1] == count
            &&& r.ch_energies@.subrange(line, line + count) == t.ch_energies@.subrange(
                base,
                base + count,
            )
            &&& r.ch_intensity_cdf@.subrange(line, line + count)
                == t.ch_intensity_cdf@.subrange(base, base + count)
        }),
{
    let t = tables[m];
    let rows = production_rows(tables, n_grid);
    let chs = channel_tables(tables);
    let all = joined(chs);
    let first = offset(chs, m);
    let k = first + c;
    assert(r.meta@[m * DECAY_META_COLS] == offset(rows, m));
    assert(rows[m] == t.production_row(n_grid));
    assert(chs[m] == t.channels());
    joined_table_stands_at_its_offset(rows, m);
    joined_table_stands_at_its_offset(chs, m);
    assert(all.subrange(first, first + chs[m].len())[c] == t.channel(c));
    assert(all[k] == t.channel(c));
    assert(r.ch_e_meta@[2 * k] == offset(energies_of(all), k));
    joined_table_stands_at_its_offset(energies_of(all), k);
    joined_table_stands_at_its_offset(cdfs_of(all), k);
    assert(t.ch_e_base@[c] + t.ch_e_count@[c] <= t.ch_energies@.len());
    lemma_channels_are_parallel(tables, n_grid);
    lemma_offsets_are_parallel(all, k);
    assert(t.production_row(n_grid) =~= t.photon_prod@);
}

proof fn lemma_rows_follow_channels(tables: Seq<MaterialDecayTable>, n_grid: nat, m: int)
    requires
        0 <= m <= tables.len(),
        forall|j: int|
            0 <= j < tables.len() ==> (#[trigger] tables[j]).ch_xs@.len()
                == tables[j].channels().len() * n_grid,
    ensures
        offset(xs_tables(tables), m) == offset(channel_tables(tables), m) * n_grid,
    decreases m,
{
    if m > 0 {
        lemma_rows_follow_channels(tables, n_grid, m - 1);
        lemma_joined_take(xs_tables(tables), m - 1);
        lemma_joined_take(channel_tables(tables), m - 1);
        let a = offset(channel_tables(tables), m - 1);
        let b = tables[m - 1].channels().len() as int;
        assert((a + b) * n_grid == a * n_grid + b * n_grid) by (nonlinear_arith);
    } else {
        assert(xs_tables(tables).take(0) =~= Seq::empty());
        assert(channel_tables(tables).take(0) =~= Seq::empty());
        assert(0 * n_grid == 0) by (nonlinear_arith);
    }
}

/// A packed channel's cross-section row is the one at its place among all
/// channels, where each material has one row per channel.
pub proof fn packed_rows_are_the_channels_own(
    r: DecayPhotonInputs,
    tables: Seq<MaterialDecayTable>,
    n_grid: nat,
    m: int,
    c: int,
)
    requires
        r.packs(tables, n_grid),
        forall|j: int|
            0 <= j < tables.len() ==> (#[trigger] tables[j]).ch_xs@.len()
                == tables[j].channels().len() * n_grid,
        0 <= m < tables.len(),
        0 <= c < tables[m].channels().len(),
    ensures
        ({
            let k = r.meta@[m * DECAY_META_COLS + 1] + c;
            r.ch_xs@.subrange(k * n_grid, k * n_grid + n_grid) == tables[m].ch_xs@.subrange(
                c * n_grid,
                c * n_grid + n_grid,
            )
        }),
{
    let xs = xs_tables(tables);
    let first = offset(channel_tables(tables), m);
    let n = tables[m].channels().len() as int;
    let k = first + c;
    assert(r.meta@[m * DECAY_META_COLS] == offset(production_rows(tables, n_grid), m));
    lemma_rows_follow_channels(tables, n_grid, m);
    joined_table_stands_at_its_offset(xs, m);
    assert(xs[m] == tables[m].ch_xs@);
    assert(k * n_grid == first * n_grid + c * n_grid) by (nonlinear_arith)
        requires
            k == first + c,
    ;
    assert(0 <= c * n_grid && c * n_grid + n_grid <= n * n_grid) by (nonlinear_arith)
        requires
            0 <= c,
            c + 1 <= n,
    ;
    let all = joined(xs).subrange(offset(xs, m), offset(xs, m) + xs[m].len());
    if n_grid == 0 {
        assert(r.ch_xs@.subrange(k * n_grid, k * n_grid + n_grid)
            =~= tables[m].ch_xs@.subrange(c * n_grid, c * n_grid + n_grid));
    } else {
        assert(joined(xs).len() > 0);
        assert(all.subrange(c * n_grid, c * n_grid + n_grid) =~= joined(xs).subrange(
            k * n_grid,
            k * n_grid + n_grid,
        ));
    }
}

/// A material without a production row of its own stands in the packed table as a row
/// of zeros, and has no channel.
pub proof fn a_silent_material_produces_nothing(
    r: DecayPhotonInputs,
    tables: Seq<MaterialDecayTable>,
    n_grid: nat,
    m: int,
    i: int,
)
    requires
        r.packs(tables, n_grid),
        0 <= m < tables.len(),
        tables[m].photon_prod@.len() == 0,
        0 <= i < n_grid,
    ensures
        r.meta@[3 * m] + i < r.photon_prod@.len(),
        r.photon_prod@[r.meta@[3 * m] + i].bits == 0,
        r.meta@[3 * m + 2] == tables[m].ch_parent_id@.len(),
{
    let rows = production_rows(tables, n_grid);
    joined_table_stands_at_its_offset(rows, m);
    let row = r.meta@[m * DECAY_META_COLS] as int;
    assert(row == offset(rows, m));
    assert(rows[m] == zeros(n_grid));
    assert(joined(rows).subrange(row, row + n_grid)[i] == rows[m][i]);
    assert(joined(rows).len() > 0);
}

/// Switched off, the tables say so and hold nothing but zeros.
pub proof fn switched_off_decay_holds_nothing(
    n_materials: usize,
    n_grid: usize,
    i: int,
    r: DecayPhotonInputs,
)
    requires
        n_materials * 3 <= usize::MAX,
        call_ensures(DecayPhotonInputs::decay_off, (n_materials, n_grid), r),
    ensures
        r.decay_enabled@.len() == 1 && r.decay_enabled@[0] == 0,
        n_grid > 0 ==> r.photon_prod@.len() == n_grid,
        n_grid == 0 ==> r.photon_prod@.len() == 1,
        0 <= i < r.photon_prod@.len() ==> r.photon_prod@[i].bits == 0 && r.ch_xs@[i].bits == 0,
        n_materials > 0 ==> r.meta@.len() == 3 * n_materials,
        n_materials == 0 ==> r.meta@.len() == 3,
        0 <= i < r.meta@.len() ==> r.meta@[i] == 0,
{
}

} // verus!
