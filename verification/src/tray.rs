//! What the tray shows: devices grouped by PCI slot (the address without its
//! function number), one header per group with its video, audio and other
//! functions, and the actions offered on each group.
use vstd::prelude::*;
use crate::gpu::{copy_opt_text, opt_view, Gpu};
use crate::text::{
    glue, join_texts, joined, lemma_precedes_asymmetric, lemma_precedes_total,
    lemma_precedes_transitive, owned, precedes, same_text, text_precedes, views_of,
};

verus! {

/// The position of the last `.` in a text, or -1 when there is none.
pub open spec fn last_dot(s: Seq<char>) -> int
    decreases s.len(),
{
    if s.len() == 0 {
        -1
    } else if s.last() == '.' {
        s.len() - 1
    } else {
        last_dot(s.drop_last())
    }
}

/// The part of an address before its last `.` (the whole address when it has
/// none).
pub open spec fn bdf_base(s: Seq<char>) -> Seq<char> {
    if last_dot(s) < 0 {
        s
    } else {
        s.take(last_dot(s))
    }
}

/// The part of an address after its last `.`, if it has one.
pub open spec fn bdf_function(s: Seq<char>) -> Option<Seq<char>> {
    if last_dot(s) < 0 {
        None
    } else {
        Some(s.skip(last_dot(s) + 1))
    }
}

proof fn lemma_last_dot(s: Seq<char>)
    ensures
        -1 <= last_dot(s) < s.len(),
        last_dot(s) >= 0 ==> s[last_dot(s)] == '.',
        forall|i: int| last_dot(s) < i < s.len() ==> s[i] != '.',
    decreases s.len(),
{
    if s.len() > 0 && s.last() != '.' {
        let init = s.drop_last();
        lemma_last_dot(init);
        assert forall|i: int| last_dot(s) < i < s.len() implies s[i] != '.' by {
            if i < s.len() - 1 {
                assert(s[i] == init[i]);
            }
        }
    }
}

/// Splitting an address at its last `.` and joining the parts with a `.`
/// gives the address back; the function part holds no `.`, and an address
/// without a function part holds none at all.
pub proof fn law_split_rejoins(s: Seq<char>)
    ensures
        bdf_function(s) matches Some(f) ==> bdf_base(s) + "."@ + f == s && !f.contains('.'),
        bdf_function(s) is None ==> bdf_base(s) == s && !s.contains('.'),
{
    lemma_last_dot(s);
    reveal_strlit(".");
    if last_dot(s) >= 0 {
        let k = last_dot(s);
        assert(s.take(k) + "."@ + s.skip(k + 1) =~= s);
        let f = s.skip(k + 1);
        if f.contains('.') {
            let i = choose|i: int| 0 <= i < f.len() && f[i] == '.';
            assert(s[k + 1 + i] == '.');
        }
    } else {
        if s.contains('.') {
            let i = choose|i: int| 0 <= i < s.len() && s[i] == '.';
            assert(s[i] == '.');
        }
    }
}

/// Splits an address at its last `.` into the slot and the function number.
pub fn split_bdf(bdf: &str) -> (r: (String, Option<String>))
    ensures
        r.0@ == bdf_base(bdf@),
        opt_view(r.1) == bdf_function(bdf@),
{
    let n = bdf.unicode_len();
    let mut found: Option<usize> = None;
    let mut i: usize = 0;
    assert(bdf@.take(0) =~= Seq::<char>::empty());
    while i < n
        invariant
            n == bdf@.len(),
            i <= n,
            match found {
                Some(k) => k < i && last_dot(bdf@.take(i as int)) == k,
                None => last_dot(bdf@.take(i as int)) == -1,
            },
        decreases n - i,
    {
        assert(bdf@.take(i + 1).drop_last() =~= bdf@.take(i as int));
        if bdf.get_char(i) == '.' {
            found = Some(i);
        }
        i = i + 1;
    }
    assert(bdf@.take(n as int) =~= bdf@);
    proof {
        lemma_last_dot(bdf@);
    }
    match found {
        Some(k) => (bdf.substring_char(0, k).to_owned(), Some(bdf.substring_char(k + 1, n).to_owned())),
        None => (owned(bdf), None),
    }
}

/// Where a function goes in its group.
#[derive(Debug, Clone, Copy, PartialEq, Eq)]
pub enum Slot {
    /// Function 0, or an address without a function number.
    Video,
    /// Function 1.
    Audio,
    /// Any other function.
    Other,
}

/// The slot of an address's function.
pub open spec fn slot_of(bdf: Seq<char>) -> Slot {
    match bdf_function(bdf) {
        None => Slot::Video,
        Some(f) => if f == "0"@ {
            Slot::Video
        } else if f == "1"@ {
            Slot::Audio
        } else {
            Slot::Other
        },
    }
}

/// The slot of a function number.
fn slot_for(func: &Option<String>) -> (s: Slot)
    ensures
        s == (match opt_view(*func) {
            None => Slot::Video,
            Some(f) => if f == "0"@ {
                Slot::Video
            } else if f == "1"@ {
                Slot::Audio
            } else {
                Slot::Other
            },
        }),
{
    match func {
        None => Slot::Video,
        Some(f) => {
            if same_text(f.as_str(), "0") {
                Slot::Video
            } else if same_text(f.as_str(), "1") {
                Slot::Audio
            } else {
                Slot::Other
            }
        },
    }
}

/// The functions of one PCI slot.
#[derive(Debug, PartialEq, Eq)]
pub struct DeviceGroup {
    /// The slot address, without a function number.
    pub base: String,
    /// The video function.
    pub video: Option<Gpu>,
    /// The audio function.
    pub audio: Option<Gpu>,
    /// The other functions, in the order they were listed.
    pub others: Vec<Gpu>,
}

/// The addresses of some devices.
pub open spec fn bdfs_of(gpus: Seq<Gpu>) -> Seq<Seq<char>> {
    gpus.map_values(|g: Gpu| g.bdf@)
}

/// The address of a device, if there is one.
pub open spec fn opt_bdf(g: Option<Gpu>) -> Seq<Seq<char>> {
    match g {
        Some(d) => seq![d.bdf@],
        None => Seq::empty(),
    }
}

/// The addresses of a group's functions: video, audio, then the others.
pub open spec fn group_bdfs(g: DeviceGroup) -> Seq<Seq<char>> {
    opt_bdf(g.video) + opt_bdf(g.audio) + bdfs_of(g.others@)
}

impl DeviceGroup {
    /// An empty group for a slot.
    pub fn new(base: String) -> (g: DeviceGroup)
        ensures
            g.base == base,
            g.video is None,
            g.audio is None,
            g.others@.len() == 0,
    {
        DeviceGroup { base, video: None, audio: None, others: Vec::new() }
    }

    /// The addresses of the group's functions: video, audio, then the others.
    pub fn all_bdfs(&self) -> (r: Vec<String>)
        ensures
            views_of(r@) == group_bdfs(*self),
    {
        let mut out: Vec<String> = Vec::new();
        if let Some(v) = &self.video {
            out.push(v.bdf.clone());
        }
        if let Some(a) = &self.audio {
            out.push(a.bdf.clone());
        }
        let ghost lead = views_of(out@);
        assert(lead =~= opt_bdf(self.video) + opt_bdf(self.audio));
        let mut i: usize = 0;
        while i < self.others.len()
            invariant
                i <= self.others.len(),
                lead == opt_bdf(self.video) + opt_bdf(self.audio),
                views_of(out@) =~= lead + bdfs_of(self.others@.take(i as int)),
            decreases self.others.len() - i,
        {
            let ghost before = out@;
            out.push(self.others[i].bdf.clone());
            assert(views_of(out@) =~= views_of(before).push(self.others@[i as int].bdf@));
            assert(bdfs_of(self.others@.take(i + 1)) =~= bdfs_of(self.others@.take(i as int)).push(
                self.others@[i as int].bdf@,
            ));
            i = i + 1;
        }
        assert(self.others@.take(self.others.len() as int) =~= self.others@);
        out
    }

    /// The group with one more function, in the given slot.
    fn with_member(self, g: &Gpu, slot: Slot) -> (r: DeviceGroup)
        ensures
            r.base == self.base,
            r.video == (if slot == Slot::Video {
                Some(*g)
            } else {
                self.video
            }),
            r.audio == (if slot == Slot::Audio {
                Some(*g)
            } else {
                self.audio
            }),
            r.others@ == (if slot == Slot::Other {
                self.others@.push(*g)
            } else {
                self.others@
            }),
    {
        let mut grp = self;
        match slot {
            Slot::Video => {
                grp.video = Some(g.duplicate());
            },
            Slot::Audio => {
                grp.audio = Some(g.duplicate());
            },
            Slot::Other => {
                grp.others.push(g.duplicate());
            },
        }
        grp
    }
}

/// Whether a device belongs in a slot of the group with the given base.
pub open spec fn in_group(g: Gpu, base: Seq<char>, slot: Slot) -> bool {
    bdf_base(g.bdf@) == base && slot_of(g.bdf@) == slot
}

/// The last of the devices that belongs in a slot of a group.
pub open spec fn last_in(gpus: Seq<Gpu>, base: Seq<char>, slot: Slot) -> Option<Gpu>
    decreases gpus.len(),
{
    if gpus.len() == 0 {
        None
    } else if in_group(gpus.last(), base, slot) {
        Some(gpus.last())
    } else {
        last_in(gpus.drop_last(), base, slot)
    }
}

/// The devices that belong among a group's other functions, in order.
pub open spec fn others_in(gpus: Seq<Gpu>, base: Seq<char>) -> Seq<Gpu>
    decreases gpus.len(),
{
    if gpus.len() == 0 {
        Seq::empty()
    } else if in_group(gpus.last(), base, Slot::Other) {
        others_in(gpus.drop_last(), base).push(gpus.last())
    } else {
        others_in(gpus.drop_last(), base)
    }
}

/// Whether some device has the given slot address.
#[verifier::opaque]
pub open spec fn has_member(gpus: Seq<Gpu>, base: Seq<char>) -> bool {
    exists|k: int| 0 <= k < gpus.len() && bdf_base(#[trigger] gpus[k].bdf@) == base
}

/// Whether a group holds exactly the devices of its slot: the last video
/// function, the last audio function, and all other functions in order.
pub open spec fn describes(grp: DeviceGroup, gpus: Seq<Gpu>) -> bool {
    &&& has_member(gpus, grp.base@)
    &&& grp.video == last_in(gpus, grp.base@, Slot::Video)
    &&& grp.audio == last_in(gpus, grp.base@, Slot::Audio)
    &&& grp.others@ == others_in(gpus, grp.base@)
}

/// Whether every group holds exactly the devices of its slot.
pub open spec fn all_describe(groups: Seq<DeviceGroup>, gpus: Seq<Gpu>) -> bool {
    forall|i: int| 0 <= i < groups.len() ==> describes(#[trigger] groups[i], gpus)
}

/// Whether groups are ordered by slot address, each address coming once.
pub open spec fn sorted_by_base(groups: Seq<DeviceGroup>) -> bool {
    forall|i: int, j: int|
        0 <= i < j < groups.len() ==> precedes(#[trigger] groups[i].base@, #[trigger] groups[j].base@)
}

/// Whether every device's slot address has a group.
pub open spec fn covers(gpus: Seq<Gpu>, groups: Seq<DeviceGroup>) -> bool {
    forall|k: int|
        0 <= k < gpus.len() ==> exists|i: int|
            0 <= i < groups.len() && #[trigger] groups[i].base@ == bdf_base(#[trigger] gpus[k].bdf@)
}

/// Whether `groups` is the grouping of `gpus`: one group per slot address
/// that occurs, ordered by address, each holding its slot's devices.
pub open spec fn grouped(gpus: Seq<Gpu>, groups: Seq<DeviceGroup>) -> bool {
    &&& all_describe(groups, gpus)
    &&& sorted_by_base(groups)
    &&& covers(gpus, groups)
}

proof fn lemma_describes_kept(grp: DeviceGroup, gpus: Seq<Gpu>, g: Gpu)
    requires
        describes(grp, gpus),
        bdf_base(g.bdf@) != grp.base@,
    ensures
        describes(grp, gpus.push(g)),
{
    reveal(has_member);
    let ext = gpus.push(g);
    assert(ext.drop_last() =~= gpus);
    let k = choose|k: int| 0 <= k < gpus.len() && bdf_base(#[trigger] gpus[k].bdf@) == grp.base@;
    assert(ext[k] == gpus[k]);
}

proof fn lemma_describes_added(old: DeviceGroup, new: DeviceGroup, gpus: Seq<Gpu>, g: Gpu)
    requires
        old.base@ == bdf_base(g.bdf@),
        new.base == old.base,
        has_member(gpus, old.base@) ==> describes(old, gpus),
        !has_member(gpus, old.base@) ==> old.video is None && old.audio is None && old.others@.len()
            == 0,
        new.video == (if slot_of(g.bdf@) == Slot::Video {
            Some(g)
        } else {
            old.video
        }),
        new.audio == (if slot_of(g.bdf@) == Slot::Audio {
            Some(g)
        } else {
            old.audio
        }),
        new.others@ == (if slot_of(g.bdf@) == Slot::Other {
            old.others@.push(g)
        } else {
            old.others@
        }),
    ensures
        describes(new, gpus.push(g)),
{
    reveal(has_member);
    let ext = gpus.push(g);
    let b = old.base@;
    assert(ext.drop_last() =~= gpus);
    assert(ext[gpus.len() as int] == g);
    assert(bdf_base(ext[gpus.len() as int].bdf@) == b);
    if !has_member(gpus, b) {
        lemma_nothing_in(gpus, b);
    }
    assert(has_member(ext, b));
    assert(new.video == last_in(ext, b, Slot::Video));
    assert(new.audio == last_in(ext, b, Slot::Audio));
    assert(new.others@ == others_in(ext, b));
}

proof fn lemma_nothing_in(gpus: Seq<Gpu>, base: Seq<char>)
    requires
        !has_member(gpus, base),
    ensures
        last_in(gpus, base, Slot::Video) is None,
        last_in(gpus, base, Slot::Audio) is None,
        others_in(gpus, base).len() == 0,
    decreases gpus.len(),
{
    reveal(has_member);
    if gpus.len() > 0 {
        let init = gpus.drop_last();
        if has_member(init, base) {
            let k = choose|k: int| 0 <= k < init.len() && bdf_base(#[trigger] init[k].bdf@) == base;
            assert(gpus[k] == init[k]);
        }
        assert(bdf_base(gpus[gpus.len() - 1].bdf@) != base);
        lemma_nothing_in(init, base);
    }
}

/// Adding a device to the group of its slot keeps the grouping.
proof fn lemma_update_step(
    old_groups: Seq<DeviceGroup>,
    p: int,
    updated: DeviceGroup,
    prev: Seq<Gpu>,
    g: Gpu,
)
    requires
        grouped(prev, old_groups),
        0 <= p < old_groups.len(),
        old_groups[p].base@ == bdf_base(g.bdf@),
        updated.base == old_groups[p].base,
        describes(updated, prev.push(g)),
    ensures
        grouped(prev.push(g), old_groups.update(p, updated)),
{
    let next = prev.push(g);
    let groups = old_groups.update(p, updated);
    let base = bdf_base(g.bdf@);
    assert forall|i: int| 0 <= i < groups.len() implies describes(#[trigger] groups[i], next) by {
        if i != p {
            assert(describes(old_groups[i], prev));
            if old_groups[i].base@ == base {
                if i < p {
                    assert(precedes(old_groups[i].base@, old_groups[p].base@));
                } else {
                    assert(precedes(old_groups[p].base@, old_groups[i].base@));
                }
                lemma_precedes_asymmetric(base, base);
            }
            lemma_describes_kept(old_groups[i], prev, g);
        }
    }
    assert forall|i: int, j: int| 0 <= i < j < groups.len() implies precedes(
        #[trigger] groups[i].base@,
        #[trigger] groups[j].base@,
    ) by {
        assert(precedes(old_groups[i].base@, old_groups[j].base@));
    }
    assert forall|k: int| 0 <= k < next.len() implies exists|i: int|
        0 <= i < groups.len() && #[trigger] groups[i].base@ == bdf_base(#[trigger] next[k].bdf@) by {
        if k < prev.len() {
            assert(next[k] == prev[k]);
            let i = choose|i: int|
                0 <= i < old_groups.len() && #[trigger] old_groups[i].base@ == bdf_base(
                    #[trigger] prev[k].bdf@,
                );
            assert(groups[i].base@ == old_groups[i].base@);
        } else {
            assert(groups[p].base@ == bdf_base(next[k].bdf@));
        }
    }
}

/// A slot address that falls between the groups before `p` and the group at
/// `p` has no group, so no device has it.
proof fn lemma_absent(old_groups: Seq<DeviceGroup>, p: int, prev: Seq<Gpu>, base: Seq<char>)
    requires
        grouped(prev, old_groups),
        0 <= p <= old_groups.len(),
        forall|i: int| 0 <= i < p ==> precedes(#[trigger] old_groups[i].base@, base),
        p < old_groups.len() ==> precedes(base, old_groups[p].base@),
    ensures
        !has_member(prev, base),
{
    reveal(has_member);
    if has_member(prev, base) {
        let k = choose|k: int| 0 <= k < prev.len() && bdf_base(#[trigger] prev[k].bdf@) == base;
        let i = choose|i: int|
            0 <= i < old_groups.len() && #[trigger] old_groups[i].base@ == bdf_base(
                #[trigger] prev[k].bdf@,
            );
        lemma_precedes_asymmetric(base, base);
        if i > p {
            assert(precedes(old_groups[p].base@, old_groups[i].base@));
            lemma_precedes_transitive(base, old_groups[p].base@, base);
        }
    }
}

/// After inserting a new group, every group holds its slot's devices.
proof fn lemma_insert_describes(
    old_groups: Seq<DeviceGroup>,
    p: int,
    fresh: DeviceGroup,
    prev: Seq<Gpu>,
    g: Gpu,
)
    requires
        grouped(prev, old_groups),
        0 <= p <= old_groups.len(),
        fresh.base@ == bdf_base(g.bdf@),
        forall|i: int| 0 <= i < p ==> precedes(#[trigger] old_groups[i].base@, fresh.base@),
        p < old_groups.len() ==> precedes(fresh.base@, old_groups[p].base@),
        describes(fresh, prev.push(g)),
    ensures
        all_describe(old_groups.insert(p, fresh), prev.push(g)),
{
    let next = prev.push(g);
    let groups = old_groups.insert(p, fresh);
    let base = fresh.base@;
    assert forall|i: int| 0 <= i < groups.len() implies describes(#[trigger] groups[i], next) by {
        if i < p {
            assert(groups[i] == old_groups[i]);
            assert(describes(old_groups[i], prev));
            lemma_precedes_asymmetric(base, base);
            lemma_describes_kept(old_groups[i], prev, g);
        } else if i > p {
            assert(groups[i] == old_groups[i - 1]);
            assert(describes(old_groups[i - 1], prev));
            if old_groups[i - 1].base@ == base {
                if i - 1 > p {
                    assert(precedes(old_groups[p].base@, old_groups[i - 1].base@));
                    lemma_precedes_transitive(base, old_groups[p].base@, base);
                }
                lemma_precedes_asymmetric(base, base);
            }
            lemma_describes_kept(old_groups[i - 1], prev, g);
        }
    }
}

/// After inserting a new group, the groups stay ordered by address.
proof fn lemma_insert_sorted(old_groups: Seq<DeviceGroup>, p: int, fresh: DeviceGroup)
    requires
        sorted_by_base(old_groups),
        0 <= p <= old_groups.len(),
        forall|i: int| 0 <= i < p ==> precedes(#[trigger] old_groups[i].base@, fresh.base@),
        p < old_groups.len() ==> precedes(fresh.base@, old_groups[p].base@),
    ensures
        sorted_by_base(old_groups.insert(p, fresh)),
{
    let groups = old_groups.insert(p, fresh);
    let base = fresh.base@;
    assert forall|i: int, j: int| 0 <= i < j < groups.len() implies precedes(
        #[trigger] groups[i].base@,
        #[trigger] groups[j].base@,
    ) by {
        if j == p {
            assert(groups[i] == old_groups[i]);
        } else if i == p {
            assert(groups[j] == old_groups[j - 1]);
            if j - 1 > p {
                assert(precedes(old_groups[p].base@, old_groups[j - 1].base@));
                lemma_precedes_transitive(base, old_groups[p].base@, old_groups[j - 1].base@);
            }
        } else if i < p && j > p {
            assert(groups[i] == old_groups[i]);
            assert(groups[j] == old_groups[j - 1]);
            assert(precedes(old_groups[i].base@, old_groups[j - 1].base@));
        } else if j < p {
            assert(groups[i] == old_groups[i]);
            assert(groups[j] == old_groups[j]);
            assert(precedes(old_groups[i].base@, old_groups[j].base@));
        } else {
            assert(groups[i] == old_groups[i - 1]);
            assert(groups[j] == old_groups[j - 1]);
            assert(precedes(old_groups[i - 1].base@, old_groups[j - 1].base@));
        }
    }
}

/// After inserting a new group, every device's slot has a group.
proof fn lemma_insert_covers(
    old_groups: Seq<DeviceGroup>,
    p: int,
    fresh: DeviceGroup,
    prev: Seq<Gpu>,
    g: Gpu,
)
    requires
        covers(prev, old_groups),
        0 <= p <= old_groups.len(),
        fresh.base@ == bdf_base(g.bdf@),
    ensures
        covers(prev.push(g), old_groups.insert(p, fresh)),
{
    let next = prev.push(g);
    let groups = old_groups.insert(p, fresh);
    assert forall|k: int| 0 <= k < next.len() implies exists|i: int|
        0 <= i < groups.len() && #[trigger] groups[i].base@ == bdf_base(#[trigger] next[k].bdf@) by {
        if k < prev.len() {
            assert(next[k] == prev[k]);
            let i = choose|i: int|
                0 <= i < old_groups.len() && #[trigger] old_groups[i].base@ == bdf_base(
                    #[trigger] prev[k].bdf@,
                );
            if i < p {
                assert(groups[i] == old_groups[i]);
            } else {
                assert(groups[i + 1] == old_groups[i]);
            }
        } else {
            assert(groups[p].base@ == bdf_base(next[k].bdf@));
        }
    }
}

/// A new group for a slot address that falls between the groups before `p`
/// and the group at `p`, inserted at `p`, keeps the grouping.
proof fn lemma_insert_step(
    old_groups: Seq<DeviceGroup>,
    p: int,
    fresh: DeviceGroup,
    prev: Seq<Gpu>,
    g: Gpu,
)
    requires
        grouped(prev, old_groups),
        0 <= p <= old_groups.len(),
        fresh.base@ == bdf_base(g.bdf@),
        forall|i: int| 0 <= i < p ==> precedes(#[trigger] old_groups[i].base@, fresh.base@),
        p < old_groups.len() ==> precedes(fresh.base@, old_groups[p].base@),
        describes(fresh, prev.push(g)),
    ensures
        grouped(prev.push(g), old_groups.insert(p, fresh)),
{
    lemma_insert_describes(old_groups, p, fresh, prev, g);
    lemma_insert_sorted(old_groups, p, fresh);
    lemma_insert_covers(old_groups, p, fresh, prev, g);
}

/// Groups the devices by slot address, ordered by address: in each group the
/// last function 0 (or function-less address) is the video function, the
/// last function 1 the audio function, and all others are kept in order.
pub fn group_gpus(gpus: &[Gpu]) -> (groups: Vec<DeviceGroup>)
    ensures
        grouped(gpus@, groups@),
{
    let mut groups: Vec<DeviceGroup> = Vec::new();
    let mut n: usize = 0;
    assert(gpus@.take(0) =~= Seq::<Gpu>::empty());
    while n < gpus.len()
        invariant
            n <= gpus.len(),
            grouped(gpus@.take(n as int), groups@),
        decreases gpus.len() - n,
    {
        let g = &gpus[n];
        let ghost prev = gpus@.take(n as int);
        assert(gpus@.take(n + 1) =~= prev.push(*g));
        let (base, func) = split_bdf(g.bdf.as_str());
        let slot = slot_for(&func);
        let mut p: usize = 0;
        while p < groups.len() && text_precedes(groups[p].base.as_str(), base.as_str())
            invariant
                p <= groups.len(),
                forall|i: int| 0 <= i < p ==> precedes(#[trigger] groups@[i].base@, base@),
            decreases groups.len() - p,
        {
            p = p + 1;
        }
        let ghost old_groups = groups@;
        if p < groups.len() && same_text(groups[p].base.as_str(), base.as_str()) {
            let grp = groups.remove(p);
            let updated = grp.with_member(g, slot);
            proof {
                lemma_describes_added(grp, updated, prev, *g);
            }
            groups.insert(p, updated);
            proof {
                assert(groups@ =~= old_groups.update(p as int, updated));
                lemma_update_step(old_groups, p as int, updated, prev, *g);
            }
        } else {
            proof {
                if p < old_groups.len() {
                    lemma_precedes_total(old_groups[p as int].base@, base@);
                }
                lemma_absent(old_groups, p as int, prev, base@);
            }
            let empty = DeviceGroup::new(base);
            let fresh = empty.with_member(g, slot);
            proof {
                lemma_describes_added(empty, fresh, prev, *g);
            }
            groups.insert(p, fresh);
            proof {
                assert(groups@ =~= old_groups.insert(p as int, fresh));
                lemma_insert_step(old_groups, p as int, fresh, prev, *g);
            }
        }
        n = n + 1;
    }
    assert(gpus@.take(gpus.len() as int) =~= gpus@);
    groups
}

/// The slot addresses of some groups.
pub open spec fn bases_of(groups: Seq<DeviceGroup>) -> Seq<Seq<char>> {
    groups.map_values(|g: DeviceGroup| g.base@)
}

/// Whether texts are in strictly increasing code point order.
pub open spec fn strictly_ordered(x: Seq<Seq<char>>) -> bool {
    forall|i: int, j: int| 0 <= i < j < x.len() ==> precedes(#[trigger] x[i], #[trigger] x[j])
}

/// Two strictly ordered lists with the same elements are the same list.
proof fn lemma_ordered_same_elements(x: Seq<Seq<char>>, y: Seq<Seq<char>>)
    requires
        strictly_ordered(x),
        strictly_ordered(y),
        forall|e: Seq<char>| x.contains(e) <==> y.contains(e),
    ensures
        x == y,
    decreases x.len(),
{
    if x.len() == 0 {
        if y.len() > 0 {
            assert(y.contains(y[0]));
        }
        assert(x =~= y);
    } else {
        assert(x.contains(x[0]));
        let j = choose|j: int| 0 <= j < y.len() && y[j] == x[0];
        assert(y.contains(y[0]));
        let i = choose|i: int| 0 <= i < x.len() && x[i] == y[0];
        lemma_precedes_asymmetric(x[0], y[0]);
        if i > 0 {
            assert(precedes(x[0], x[i]));
            if j > 0 {
                assert(precedes(y[0], y[j]));
            }
        }
        if j > 0 {
            assert(precedes(y[0], y[j]));
        }
        assert(x[0] == y[0]);
        let x1 = x.drop_first();
        let y1 = y.drop_first();
        assert forall|e: Seq<char>| x1.contains(e) implies y1.contains(e) by {
            let k = choose|k: int| 0 <= k < x1.len() && x1[k] == e;
            assert(x[k + 1] == e);
            assert(precedes(x[0], x[k + 1]));
            lemma_precedes_asymmetric(x[0], x[0]);
            assert(y.contains(e));
            let m = choose|m: int| 0 <= m < y.len() && y[m] == e;
            assert(m != 0);
            assert(y1[m - 1] == e);
        }
        assert forall|e: Seq<char>| y1.contains(e) implies x1.contains(e) by {
            let k = choose|k: int| 0 <= k < y1.len() && y1[k] == e;
            assert(y[k + 1] == e);
            assert(precedes(y[0], y[k + 1]));
            lemma_precedes_asymmetric(y[0], y[0]);
            assert(x.contains(e));
            let m = choose|m: int| 0 <= m < x.len() && x[m] == e;
            assert(m != 0);
            assert(x1[m - 1] == e);
        }
        assert forall|a: int, b: int| 0 <= a < b < x1.len() implies precedes(
            #[trigger] x1[a],
            #[trigger] x1[b],
        ) by {
            assert(precedes(x[a + 1], x[b + 1]));
        }
        assert forall|a: int, b: int| 0 <= a < b < y1.len() implies precedes(
            #[trigger] y1[a],
            #[trigger] y1[b],
        ) by {
            assert(precedes(y[a + 1], y[b + 1]));
        }
        lemma_ordered_same_elements(x1, y1);
        assert(x =~= seq![x[0]] + x1);
        assert(y =~= seq![y[0]] + y1);
    }
}

/// The slot addresses of a grouping are those of the devices.
proof fn lemma_grouping_bases(gpus: Seq<Gpu>, groups: Seq<DeviceGroup>)
    requires
        grouped(gpus, groups),
    ensures
        strictly_ordered(bases_of(groups)),
        forall|e: Seq<char>| bases_of(groups).contains(e) <==> has_member(gpus, e),
{
    reveal(has_member);
    let bs = bases_of(groups);
    assert forall|i: int, j: int| 0 <= i < j < bs.len() implies precedes(
        #[trigger] bs[i],
        #[trigger] bs[j],
    ) by {
        assert(precedes(groups[i].base@, groups[j].base@));
    }
    assert forall|e: Seq<char>| bs.contains(e) <==> has_member(gpus, e) by {
        if bs.contains(e) {
            let i = choose|i: int| 0 <= i < bs.len() && bs[i] == e;
            assert(describes(groups[i], gpus));
        }
        if has_member(gpus, e) {
            let k = choose|k: int| 0 <= k < gpus.len() && bdf_base(#[trigger] gpus[k].bdf@) == e;
            let i = choose|i: int|
                0 <= i < groups.len() && #[trigger] groups[i].base@ == bdf_base(
                    #[trigger] gpus[k].bdf@,
                );
            assert(bs[i] == e);
        }
    }
}

/// Whether two groups hold the same slot address and the same functions.
pub open spec fn same_group(a: DeviceGroup, b: DeviceGroup) -> bool {
    &&& a.base@ == b.base@
    &&& a.video == b.video
    &&& a.audio == b.audio
    &&& a.others@ == b.others@
}

proof fn lemma_same_base_same_group(gpus: Seq<Gpu>, x: DeviceGroup, y: DeviceGroup)
    requires
        describes(x, gpus),
        describes(y, gpus),
        x.base@ == y.base@,
    ensures
        same_group(x, y),
{
}

/// The grouping of a device list is determined by it: any two groupings of
/// the same devices have the same slot addresses, in the same order, with the
/// same functions.
pub proof fn law_grouping_is_unique(gpus: Seq<Gpu>, a: Seq<DeviceGroup>, b: Seq<DeviceGroup>)
    requires
        grouped(gpus, a),
        grouped(gpus, b),
    ensures
        a.len() == b.len(),
        forall|i: int| 0 <= i < a.len() ==> same_group(#[trigger] a[i], b[i]),
{
    lemma_grouping_bases(gpus, a);
    lemma_grouping_bases(gpus, b);
    lemma_ordered_same_elements(bases_of(a), bases_of(b));
    assert(bases_of(a).len() == bases_of(b).len());
    assert forall|i: int| 0 <= i < a.len() implies same_group(#[trigger] a[i], b[i]) by {
        assert(bases_of(a)[i] == bases_of(b)[i]);
        lemma_same_base_same_group(gpus, a[i], b[i]);
    }
}

/// How a device's driver is shown: its name, or `none`.
pub open spec fn driver_text(d: Option<String>) -> Seq<char> {
    match d {
        Some(s) => s@,
        None => "none"@,
    }
}

/// How a device is shown: `BDF [VENDOR:DEVICE] [DRIVER]`.
pub open spec fn device_label(g: Gpu) -> Seq<char> {
    g.bdf@ + " ["@ + g.vendor@ + ":"@ + g.device@ + "] ["@ + driver_text(g.driver) + "]"@
}

/// Shows a device as `BDF [VENDOR:DEVICE] [DRIVER]`, with `none` for no driver.
pub fn format_device(gpu: &Gpu) -> (r: String)
    ensures
        r@ == device_label(*gpu),
{
    let mut out = owned(gpu.bdf.as_str());
    out.append(" [");
    out.append(gpu.vendor.as_str());
    out.append(":");
    out.append(gpu.device.as_str());
    out.append("] [");
    match &gpu.driver {
        Some(d) => out.append(d.as_str()),
        None => out.append("none"),
    }
    out.append("]");
    out
}

/// How a slot's function is shown: the device, or a note that the slot has
/// no such function.
pub open spec fn placeholder_label(
    g: Option<Gpu>,
    base: Seq<char>,
    func: Seq<char>,
    label: Seq<char>,
) -> Seq<char> {
    match g {
        Some(d) => device_label(d),
        None => base + "."@ + func + " [no "@ + label + " function]"@,
    }
}

/// Shows a device, or `BASE.FUNC [no LABEL function]` when there is none.
pub fn format_device_or_placeholder(gpu: Option<&Gpu>, base: &str, func: &str, label: &str) -> (r:
    String)
    ensures
        r@ == placeholder_label(
            match gpu {
                Some(d) => Some(*d),
                None => None,
            },
            base@,
            func@,
            label@,
        ),
{
    match gpu {
        Some(dev) => format_device(dev),
        None => {
            let mut out = owned(base);
            out.append(".");
            out.append(func);
            out.append(" [no ");
            out.append(label);
            out.append(" function]");
            out
        },
    }
}

/// The labels of some devices.
pub open spec fn device_labels(gpus: Seq<Gpu>) -> Seq<Seq<char>> {
    gpus.map_values(|g: Gpu| device_label(g))
}

/// The parts of a group's header: video (or a placeholder), audio (or a
/// placeholder), then the other functions.
pub open spec fn header_parts(grp: DeviceGroup) -> Seq<Seq<char>> {
    seq![
        placeholder_label(grp.video, grp.base@, "0"@, "video"@),
        placeholder_label(grp.audio, grp.base@, "1"@, "audio"@),
    ] + device_labels(grp.others@)
}

/// A group's header: its parts separated by ` | `.
pub open spec fn group_header(grp: DeviceGroup) -> Seq<char> {
    joined(header_parts(grp), " | "@)
}

/// Shows a group as its parts separated by ` | `.
pub fn format_group_header(group: &DeviceGroup) -> (r: String)
    ensures
        r@ == group_header(*group),
{
    let mut parts: Vec<String> = Vec::new();
    parts.push(format_device_or_placeholder(group.video.as_ref(), group.base.as_str(), "0", "video"));
    parts.push(format_device_or_placeholder(group.audio.as_ref(), group.base.as_str(), "1", "audio"));
    let ghost lead = views_of(parts@);
    assert(lead =~= seq![
        placeholder_label(group.video, group.base@, "0"@, "video"@),
        placeholder_label(group.audio, group.base@, "1"@, "audio"@),
    ]);
    let mut i: usize = 0;
    while i < group.others.len()
        invariant
            i <= group.others.len(),
            lead == seq![
                placeholder_label(group.video, group.base@, "0"@, "video"@),
                placeholder_label(group.audio, group.base@, "1"@, "audio"@),
            ],
            views_of(parts@) =~= lead + device_labels(group.others@.take(i as int)),
        decreases group.others.len() - i,
    {
        let ghost before = parts@;
        parts.push(format_device(&group.others[i]));
        assert(views_of(parts@) =~= views_of(before).push(device_label(group.others@[i as int])));
        assert(device_labels(group.others@.take(i + 1)) =~= device_labels(
            group.others@.take(i as int),
        ).push(device_label(group.others@[i as int])));
        i = i + 1;
    }
    assert(group.others@.take(group.others.len() as int) =~= group.others@);
    join_texts(parts.as_slice(), " | ")
}

/// A list of addresses as the tray shows it: `n/a` when empty, else the
/// addresses separated by `, `.
pub open spec fn bdf_list(bdfs: Seq<Seq<char>>) -> Seq<char> {
    if bdfs.len() == 0 {
        "n/a"@
    } else {
        joined(bdfs, ", "@)
    }
}

/// Shows a list of addresses: `n/a` when empty, else separated by `, `.
pub fn format_bdf_list(bdfs: &[String]) -> (r: String)
    ensures
        r@ == bdf_list(views_of(bdfs@)),
{
    if bdfs.len() == 0 {
        owned("n/a")
    } else {
        join_texts(bdfs, ", ")
    }
}

} // verus!
