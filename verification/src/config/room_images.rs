//! Room art mappings: pictures assigned to sets of room uids.
//!
//! The files are picture-major (one entry names every room it covers);
//! the client looks art up room-major. A global file is layered with an
//! optional per-character file: a character entry with the same picture
//! name replaces the global one, new names append, and room labels merge
//! per uid. Saving splits the merged view back into the two files.
//!
//! How a picture is drawn (its height, alignment and conditional variants)
//! is kept by the caller; an entry carries only a key to those settings,
//! which every rule here passes through unchanged.

use vstd::prelude::*;
use crate::named::{has_key, keys_unique, NamedMap};
use crate::seqs::{first_index, lemma_filter_step, lemma_first_index, lemma_first_index_step};
use crate::text::{chars_of, str_eq, trim, trim_chars};

verus! {

/// One picture and the rooms it covers.
#[derive(Debug, Clone, PartialEq)]
pub struct RoomImageDef {
    /// Pool image name (no extension).
    pub name: String,
    /// Game room uids that show this picture.
    pub rooms: Vec<u64>,
    /// Key of the entry's presentation settings, kept by the caller.
    pub presentation: u64,
}

/// (name, rooms, presentation key).
pub type RoomImageView = (Seq<char>, Seq<u64>, u64);

impl View for RoomImageDef {
    type V = RoomImageView;

    open spec fn view(&self) -> RoomImageView {
        (self.name@, self.rooms@, self.presentation)
    }
}

impl RoomImageDef {
    /// A copy with the same view.
    pub fn duplicate(&self) -> (r: Self)
        ensures
            r@ == self@,
    {
        let mut rooms: Vec<u64> = Vec::new();
        let mut i: usize = 0;
        while i < self.rooms.len()
            invariant
                i <= self.rooms@.len(),
                rooms@ == self.rooms@.take(i as int),
            decreases self.rooms@.len() - i,
        {
            rooms.push(self.rooms[i]);
            i = i + 1;
            assert(rooms@ =~= self.rooms@.take(i as int));
        }
        assert(rooms@ =~= self.rooms@);
        RoomImageDef { name: self.name.clone(), rooms, presentation: self.presentation }
    }
}

/// A conditional variant is used when its name is not blank and its
/// condition holds.
pub open spec fn usable_variant() -> spec_fn((Seq<char>, bool)) -> bool {
    |v: (Seq<char>, bool)| trim(v.0).len() > 0 && v.1
}

/// Each variant's name with whether its condition holds.
pub open spec fn variant_pairs(names: Seq<String>, matched: Seq<bool>) -> Seq<(Seq<char>, bool)> {
    Seq::new(names.len(), |i: int| (names[i]@, matched[i]))
}

/// The art to show: the first usable variant's name, else `name`.
pub open spec fn resolved_name(name: Seq<char>, names: Seq<String>, matched: Seq<bool>) -> Seq<char> {
    match first_index(variant_pairs(names, matched), usable_variant()) {
        Some(i) => names[i]@,
        None => name,
    }
}

impl RoomImageDef {
    /// The art to show right now: the first conditional variant that has a
    /// name and whose condition holds, else the entry's own name.
    /// `matched[i]` is whether the condition of `variant_names[i]` holds
    /// now; the conditions are evaluated by the caller.
    pub fn resolve_name<'a>(&'a self, variant_names: &'a Vec<String>, matched: &Vec<bool>) -> (r: &'a str)
        requires
            variant_names@.len() == matched@.len(),
        ensures
            r@ == resolved_name(self.name@, variant_names@, matched@),
    {
        let ghost pairs = variant_pairs(variant_names@, matched@);
        let ghost p = usable_variant();
        let mut i: usize = 0;
        while i < variant_names.len()
            invariant
                i <= variant_names@.len(),
                variant_names@.len() == matched@.len(),
                pairs == variant_pairs(variant_names@, matched@),
                p == usable_variant(),
                first_index(pairs.take(i as int), p) is None,
            decreases variant_names@.len() - i,
        {
            proof {
                lemma_first_index_step(pairs, p, i as int);
            }
            let trimmed = trim_chars(&chars_of(variant_names[i].as_str()));
            if trimmed.len() > 0 && matched[i] {
                return variant_names[i].as_str();
            }
            i = i + 1;
        }
        proof {
            assert(pairs.take(i as int) =~= pairs);
        }
        self.name.as_str()
    }
}

/// The contents of a room images file.
pub struct RoomImagesConfig {
    /// One entry per picture.
    pub images: Vec<RoomImageDef>,
    /// Room uid (as text) to room name, for readable editor rows only.
    pub names: NamedMap<String>,
}

impl Default for RoomImagesConfig {
    fn default() -> (r: Self)
        ensures
            r.images@.len() == 0,
            r.names@ == Map::<Seq<char>, String>::empty(),
    {
        RoomImagesConfig { images: Vec::new(), names: NamedMap::new() }
    }
}

/// The entries' views.
pub open spec fn images_view(s: Seq<RoomImageDef>) -> Seq<RoomImageView> {
    s.map_values(|d: RoomImageDef| d@)
}

/// Entries named `name`.
pub open spec fn image_named(name: Seq<char>) -> spec_fn(RoomImageView) -> bool {
    |d: RoomImageView| d.0 == name
}

/// `d` in place of the first entry of its name, or appended.
pub open spec fn upsert_image(s: Seq<RoomImageView>, d: RoomImageView) -> Seq<RoomImageView> {
    match first_index(s, image_named(d.0)) {
        Some(i) => s.update(i, d),
        None => s.push(d),
    }
}

/// The entries after layering `overlay` over `base`, one overlay entry at
/// a time in order.
pub open spec fn merge_images(base: Seq<RoomImageView>, overlay: Seq<RoomImageView>) -> Seq<
    RoomImageView,
>
    decreases overlay.len(),
{
    if overlay.len() == 0 {
        base
    } else {
        upsert_image(merge_images(base, overlay.drop_last()), overlay.last())
    }
}

/// Some entry is named `name`.
pub open spec fn names_image(s: Seq<RoomImageView>, name: Seq<char>) -> bool {
    exists|i: int| 0 <= i < s.len() && (#[trigger] s[i]).0 == name
}

/// Entries whose name the character file holds.
pub open spec fn character_scoped(character: Seq<RoomImageView>) -> spec_fn(RoomImageView) -> bool {
    |d: RoomImageView| names_image(character, d.0)
}

/// Entries whose name the character file does not hold.
pub open spec fn globally_scoped(character: Seq<RoomImageView>) -> spec_fn(RoomImageView) -> bool {
    |d: RoomImageView| !names_image(character, d.0)
}

/// Global entries shadowed by a character entry that is still present.
pub open spec fn shadowed(character: Seq<RoomImageView>, merged: Seq<RoomImageView>) -> spec_fn(
    RoomImageView,
) -> bool {
    |d: RoomImageView| names_image(character, d.0) && names_image(merged, d.0)
}

/// Restriction of a map to the keys in `keys` (or out of it).
pub open spec fn keys_where<V>(m: Map<Seq<char>, V>, keys: Set<Seq<char>>, inside: bool) -> Map<
    Seq<char>,
    V,
> {
    m.restrict(m.dom().filter(|k: Seq<char>| keys.contains(k) == inside))
}

fn find_image(s: &Vec<RoomImageDef>, name: &str) -> (r: Option<usize>)
    ensures
        match r {
            Some(i) => i < s@.len() && first_index(images_view(s@), image_named(name@)) == Some(
                i as int,
            ),
            None => first_index(images_view(s@), image_named(name@)) is None,
        },
{
    let ghost v = images_view(s@);
    let ghost p = image_named(name@);
    let mut i: usize = 0;
    while i < s.len()
        invariant
            i <= s@.len(),
            v == images_view(s@),
            p == image_named(name@),
            first_index(v.take(i as int), p) is None,
        decreases s@.len() - i,
    {
        proof {
            lemma_first_index_step(v, p, i as int);
        }
        if str_eq(s[i].name.as_str(), name) {
            return Some(i);
        }
        i = i + 1;
    }
    proof {
        assert(v.take(i as int) =~= v);
    }
    None
}

fn holds_name(s: &Vec<RoomImageDef>, name: &str) -> (r: bool)
    ensures
        r == names_image(images_view(s@), name@),
{
    let found = find_image(s, name);
    proof {
        lemma_first_index(images_view(s@), image_named(name@));
        if names_image(images_view(s@), name@) {
            let j = choose|j: int|
                0 <= j < images_view(s@).len() && (#[trigger] images_view(s@)[j]).0 == name@;
            assert(image_named(name@)(images_view(s@)[j]));
        }
    }
    found.is_some()
}

/// Layer character entries over global ones: an entry replaces the first
/// global entry of the same name, or is appended; room labels merge per
/// uid, the character's winning.
pub fn merge_room_images(base: &mut RoomImagesConfig, overlay: RoomImagesConfig)
    ensures
        images_view(final(base).images@) == merge_images(
            images_view(old(base).images@),
            images_view(overlay.images@),
        ),
        final(base).names@ == old(base).names@.union_prefer_right(overlay.names@),
{
    let ghost b0 = images_view(base.images@);
    let ghost o = images_view(overlay.images@);
    let mut i: usize = 0;
    while i < overlay.images.len()
        invariant
            i <= overlay.images@.len(),
            o == images_view(overlay.images@),
            images_view(base.images@) == merge_images(b0, o.take(i as int)),
            base.names@ == old(base).names@,
        decreases overlay.images@.len() - i,
    {
        proof {
            assert(o.take(i as int + 1).drop_last() =~= o.take(i as int));
            assert(o.take(i as int + 1).last() == o[i as int]);
        }
        let d = overlay.images[i].duplicate();
        let ghost before = images_view(base.images@);
        match find_image(&base.images, overlay.images[i].name.as_str()) {
            Some(k) => {
                base.images.set(k, d);
                proof {
                    assert(images_view(base.images@) =~= before.update(k as int, o[i as int]));
                }
            },
            None => {
                base.images.push(d);
                proof {
                    assert(images_view(base.images@) =~= before.push(o[i as int]));
                }
            },
        }
        i = i + 1;
    }
    proof {
        assert(o.take(i as int) =~= o);
    }
    base.names.extend_from(&overlay.names);
}

/// Split the merged view back into the character file and the global
/// file. Entries named in the prior character file stay there; all others
/// are global (new entries are shared); a global entry shadowed by a
/// character entry keeps its own version in the global file unless the
/// name is gone from the merged view (a deletion removes it everywhere).
/// Labels split the same way by uid.
pub fn split_room_images(
    merged: &RoomImagesConfig,
    character_prior: &RoomImagesConfig,
    global_prior: &RoomImagesConfig,
) -> (r: (RoomImagesConfig, RoomImagesConfig))
    ensures
        images_view(r.0.images@) == images_view(merged.images@).filter(
            character_scoped(images_view(character_prior.images@)),
        ),
        images_view(r.1.images@) == images_view(merged.images@).filter(
            globally_scoped(images_view(character_prior.images@)),
        ) + images_view(global_prior.images@).filter(
            shadowed(images_view(character_prior.images@), images_view(merged.images@)),
        ),
        r.0.names@ == keys_where(merged.names@, character_prior.names@.dom(), true),
        r.1.names@ == keys_where(merged.names@, character_prior.names@.dom(), false).union_prefer_right(
            keys_where(
                global_prior.names@,
                character_prior.names@.dom().intersect(merged.names@.dom()),
                true,
            ),
        ),
{
    let ghost ch = images_view(character_prior.images@);
    let ghost mv = images_view(merged.images@);
    let ghost gv = images_view(global_prior.images@);
    let mut character_out = RoomImagesConfig::default();
    let mut global_out = RoomImagesConfig::default();
    let mut i: usize = 0;
    while i < merged.images.len()
        invariant
            i <= merged.images@.len(),
            mv == images_view(merged.images@),
            ch == images_view(character_prior.images@),
            images_view(character_out.images@) == mv.take(i as int).filter(character_scoped(ch)),
            images_view(global_out.images@) == mv.take(i as int).filter(globally_scoped(ch)),
            character_out.names@ == Map::<Seq<char>, String>::empty(),
            global_out.names@ == Map::<Seq<char>, String>::empty(),
        decreases merged.images@.len() - i,
    {
        proof {
            lemma_filter_step(mv, character_scoped(ch), i as int);
            lemma_filter_step(mv, globally_scoped(ch), i as int);
        }
        let d = merged.images[i].duplicate();
        if holds_name(&character_prior.images, merged.images[i].name.as_str()) {
            let ghost before = images_view(character_out.images@);
            character_out.images.push(d);
            assert(images_view(character_out.images@) =~= before.push(mv[i as int]));
        } else {
            let ghost before = images_view(global_out.images@);
            global_out.images.push(d);
            assert(images_view(global_out.images@) =~= before.push(mv[i as int]));
        }
        i = i + 1;
    }
    proof {
        assert(mv.take(i as int) =~= mv);
    }
    let ghost first = images_view(global_out.images@);
    let mut j: usize = 0;
    while j < global_prior.images.len()
        invariant
            j <= global_prior.images@.len(),
            mv == images_view(merged.images@),
            ch == images_view(character_prior.images@),
            gv == images_view(global_prior.images@),
            images_view(character_out.images@) == mv.filter(character_scoped(ch)),
            first == mv.filter(globally_scoped(ch)),
            images_view(global_out.images@) == first + gv.take(j as int).filter(shadowed(ch, mv)),
            character_out.names@ == Map::<Seq<char>, String>::empty(),
            global_out.names@ == Map::<Seq<char>, String>::empty(),
        decreases global_prior.images@.len() - j,
    {
        proof {
            lemma_filter_step(gv, shadowed(ch, mv), j as int);
        }
        let name = global_prior.images[j].name.as_str();
        if holds_name(&character_prior.images, name) && holds_name(&merged.images, name) {
            let ghost before = images_view(global_out.images@);
            global_out.images.push(global_prior.images[j].duplicate());
            assert(images_view(global_out.images@) =~= before.push(gv[j as int]));
            assert(first + gv.take(j as int + 1).filter(shadowed(ch, mv)) =~= (first + gv.take(
                j as int,
            ).filter(shadowed(ch, mv))).push(gv[j as int]));
        }
        j = j + 1;
    }
    proof {
        assert(gv.take(j as int) =~= gv);
    }
    split_labels(merged, character_prior, global_prior, &mut character_out, &mut global_out);
    (character_out, global_out)
}

/// The label half of `split_room_images`.
fn split_labels(
    merged: &RoomImagesConfig,
    character_prior: &RoomImagesConfig,
    global_prior: &RoomImagesConfig,
    character_out: &mut RoomImagesConfig,
    global_out: &mut RoomImagesConfig,
)
    requires
        old(character_out).names@ == Map::<Seq<char>, String>::empty(),
        old(global_out).names@ == Map::<Seq<char>, String>::empty(),
    ensures
        final(character_out).images@ == old(character_out).images@,
        final(global_out).images@ == old(global_out).images@,
        final(character_out).names@ == keys_where(merged.names@, character_prior.names@.dom(), true),
        final(global_out).names@ == keys_where(
            merged.names@,
            character_prior.names@.dom(),
            false,
        ).union_prefer_right(
            keys_where(
                global_prior.names@,
                character_prior.names@.dom().intersect(merged.names@.dom()),
                true,
            ),
        ),
{
    let ghost cd = character_prior.names@.dom();
    let es = merged.names.entries();
    let mut i: usize = 0;
    while i < es.len()
        invariant
            i <= es@.len(),
            keys_unique(es@),
            forall|j: int|
                0 <= j < es@.len() ==> merged.names@.dom().contains((#[trigger] es@[j]).0@)
                    && merged.names@[es@[j].0@] == es@[j].1,
            forall|k: Seq<char>| merged.names@.dom().contains(k) ==> has_key(es@, k),
            cd == character_prior.names@.dom(),
            character_out.images@ == old(character_out).images@,
            global_out.images@ == old(global_out).images@,
            forall|k: Seq<char>|
                #[trigger] character_out.names@.dom().contains(k) <==> (has_key(es@.take(i as int), k)
                    && cd.contains(k)),
            forall|k: Seq<char>|
                #[trigger] global_out.names@.dom().contains(k) <==> (has_key(es@.take(i as int), k)
                    && !cd.contains(k)),
            forall|k: Seq<char>|
                character_out.names@.dom().contains(k) ==> #[trigger] character_out.names@[k]
                    == merged.names@[k],
            forall|k: Seq<char>|
                global_out.names@.dom().contains(k) ==> #[trigger] global_out.names@[k]
                    == merged.names@[k],
        decreases es@.len() - i,
    {
        let key = es[i].0.as_str();
        if character_prior.names.contains_key(key) {
            character_out.names.insert(es[i].0.clone(), es[i].1.clone());
        } else {
            global_out.names.insert(es[i].0.clone(), es[i].1.clone());
        }
        proof {
            let t0 = es@.take(i as int);
            let t1 = es@.take(i as int + 1);
            assert forall|x: Seq<char>| has_key(t1, x) <==> (has_key(t0, x) || x == es@[i as int].0@) by {
                if has_key(t1, x) {
                    let j = choose|j: int| 0 <= j < t1.len() && (#[trigger] t1[j]).0@ == x;
                    if j < i {
                        assert(t0[j] == t1[j]);
                    }
                }
                if has_key(t0, x) {
                    let j = choose|j: int| 0 <= j < t0.len() && (#[trigger] t0[j]).0@ == x;
                    assert(t1[j] == t0[j]);
                }
                if x == es@[i as int].0@ {
                    assert(t1[i as int] == es@[i as int]);
                }
            }
        }
        i = i + 1;
    }
    proof {
        assert(es@.take(i as int) =~= es@);
        assert forall|k: Seq<char>| has_key(es@, k) implies merged.names@.dom().contains(k) by {
            let j = choose|j: int| 0 <= j < es@.len() && (#[trigger] es@[j]).0@ == k;
        }
        assert(character_out.names@ =~= keys_where(merged.names@, cd, true));
    }
    let gs = global_prior.names.entries();
    let ghost g0 = global_out.names@;
    let mut j: usize = 0;
    while j < gs.len()
        invariant
            j <= gs@.len(),
            keys_unique(gs@),
            forall|q: int|
                0 <= q < gs@.len() ==> global_prior.names@.dom().contains((#[trigger] gs@[q]).0@)
                    && global_prior.names@[gs@[q].0@] == gs@[q].1,
            forall|k: Seq<char>| global_prior.names@.dom().contains(k) ==> has_key(gs@, k),
            cd == character_prior.names@.dom(),
            character_out.images@ == old(character_out).images@,
            global_out.images@ == old(global_out).images@,
            g0 == keys_where(merged.names@, cd, false),
            forall|k: Seq<char>|
                #[trigger] global_out.names@.dom().contains(k) <==> (g0.dom().contains(k) || (
                has_key(gs@.take(j as int), k) && cd.contains(k) && merged.names@.dom().contains(k))),
            forall|k: Seq<char>| g0.dom().contains(k) ==> #[trigger] global_out.names@[k] == g0[k],
            forall|k: Seq<char>|
                !g0.dom().contains(k) && global_out.names@.dom().contains(k) ==> #[trigger] global_out.names@[k]
                    == global_prior.names@[k],
        decreases gs@.len() - j,
    {
        let key = gs[j].0.as_str();
        if character_prior.names.contains_key(key) && merged.names.contains_key(key) {
            global_out.names.insert(gs[j].0.clone(), gs[j].1.clone());
        }
        proof {
            let t0 = gs@.take(j as int);
            let t1 = gs@.take(j as int + 1);
            assert forall|x: Seq<char>| has_key(t1, x) <==> (has_key(t0, x) || x == gs@[j as int].0@) by {
                if has_key(t1, x) {
                    let q = choose|q: int| 0 <= q < t1.len() && (#[trigger] t1[q]).0@ == x;
                    if q < j {
                        assert(t0[q] == t1[q]);
                    }
                }
                if has_key(t0, x) {
                    let q = choose|q: int| 0 <= q < t0.len() && (#[trigger] t0[q]).0@ == x;
                    assert(t1[q] == t0[q]);
                }
                if x == gs@[j as int].0@ {
                    assert(t1[j as int] == gs@[j as int]);
                }
            }
        }
        j = j + 1;
    }
    proof {
        assert(gs@.take(j as int) =~= gs@);
        assert forall|k: Seq<char>| has_key(gs@, k) implies global_prior.names@.dom().contains(k) by {
            let q = choose|q: int| 0 <= q < gs@.len() && (#[trigger] gs@[q]).0@ == k;
        }
        assert(global_out.names@ =~= g0.union_prefer_right(
            keys_where(global_prior.names@, cd.intersect(merged.names@.dom()), true),
        ));
    }
}

/// `m` with every room of `rooms` not yet mapped now mapped to `d`.
pub open spec fn add_rooms(m: Map<u64, RoomImageView>, d: RoomImageView, rooms: Seq<u64>) -> Map<
    u64,
    RoomImageView,
>
    decreases rooms.len(),
{
    if rooms.len() == 0 {
        m
    } else {
        let prev = add_rooms(m, d, rooms.drop_last());
        if prev.contains_key(rooms.last()) {
            prev
        } else {
            prev.insert(rooms.last(), d)
        }
    }
}

/// Room uid to picture: each room maps to the first entry, with a name
/// that is not blank, that lists it.
pub open spec fn index_spec(images: Seq<RoomImageView>) -> Map<u64, RoomImageView>
    decreases images.len(),
{
    if images.len() == 0 {
        Map::empty()
    } else {
        let prev = index_spec(images.drop_last());
        let d = images.last();
        if trim(d.0).len() == 0 {
            prev
        } else {
            add_rooms(prev, d, d.1)
        }
    }
}

/// Room-major lookup of room art, built once at load.
pub struct RoomImageIndex {
    by_room: std::collections::HashMap<u64, RoomImageDef>,
}

impl View for RoomImageIndex {
    type V = Map<u64, RoomImageView>;

    closed spec fn view(&self) -> Map<u64, RoomImageView> {
        self.by_room@.map_values(|d: RoomImageDef| d@)
    }
}

impl RoomImageIndex {
    /// Build the room-major index (see `index_spec`): a room listed under
    /// two pictures keeps the first, and entries with a blank name are
    /// skipped.
    pub fn build(config: &RoomImagesConfig) -> (r: Self)
        ensures
            r@ == index_spec(images_view(config.images@)),
    {
        broadcast use vstd::std_specs::hash::group_hash_axioms;
        let ghost v = images_view(config.images@);
        let mut by_room: std::collections::HashMap<u64, RoomImageDef> = std::collections::HashMap::new();
        let mut i: usize = 0;
        while i < config.images.len()
            invariant
                i <= config.images@.len(),
                v == images_view(config.images@),
                by_room@.map_values(|d: RoomImageDef| d@) == index_spec(v.take(i as int)),
            decreases config.images@.len() - i,
        {
            proof {
                assert(v.take(i as int + 1).drop_last() =~= v.take(i as int));
                assert(v.take(i as int + 1).last() == v[i as int]);
            }
            let def = &config.images[i];
            let blank = trim_chars(&chars_of(def.name.as_str())).len() == 0;
            if !blank {
                let ghost start = index_spec(v.take(i as int));
                let mut j: usize = 0;
                while j < def.rooms.len()
                    invariant
                        j <= def.rooms@.len(),
                        v == images_view(config.images@),
                        def@ == v[i as int],
                        by_room@.map_values(|d: RoomImageDef| d@) == add_rooms(
                            start,
                            def@,
                            def.rooms@.take(j as int),
                        ),
                    decreases def.rooms@.len() - j,
                {
                    proof {
                        assert(def.rooms@.take(j as int + 1).drop_last() =~= def.rooms@.take(j as int));
                        assert(def.rooms@.take(j as int + 1).last() == def.rooms@[j as int]);
                    }
                    let room = def.rooms[j];
                    if !by_room.contains_key(&room) {
                        let ghost before = by_room@;
                        by_room.insert(room, def.duplicate());
                        proof {
                            assert(by_room@.map_values(|d: RoomImageDef| d@) =~= before.map_values(
                                |d: RoomImageDef| d@,
                            ).insert(room, def@));
                        }
                    }
                    j = j + 1;
                }
                proof {
                    assert(def.rooms@.take(j as int) =~= def.rooms@);
                }
            }
            i = i + 1;
        }
        proof {
            assert(v.take(i as int) =~= v);
        }
        RoomImageIndex { by_room }
    }

    /// The art for a room uid, if any.
    pub fn get(&self, room: u64) -> (r: Option<&RoomImageDef>)
        ensures
            match r {
                Some(d) => self@.contains_key(room) && d@ == self@[room],
                None => !self@.contains_key(room),
            },
    {
        broadcast use vstd::std_specs::hash::group_hash_axioms;
        self.by_room.get(&room)
    }

    /// How many rooms have art.
    pub fn len(&self) -> (n: usize)
        ensures
            n == self@.len(),
    {
        broadcast use vstd::std_specs::hash::group_hash_axioms;
        assert(self@.dom() =~= self.by_room@.dom());
        self.by_room.len()
    }

    /// No room has art.
    pub fn is_empty(&self) -> (b: bool)
        ensures
            b == (self@.len() == 0),
    {
        broadcast use vstd::std_specs::hash::group_hash_axioms;
        assert(self@.dom() =~= self.by_room@.dom());
        self.by_room.is_empty()
    }
}

/// Splitting never loses a deletion: a picture name absent from the merged
/// view is in neither file afterwards. And no character entry reaches the
/// global file: the global file holds only names the character file does
/// not use, or the global file's own earlier versions.
pub proof fn split_keeps_scopes_apart(
    merged: Seq<RoomImageView>,
    character: Seq<RoomImageView>,
    global: Seq<RoomImageView>,
    name: Seq<char>,
)
    ensures
        !names_image(merged, name) ==> !names_image(merged.filter(character_scoped(character)), name)
            && !names_image(
            merged.filter(globally_scoped(character)) + global.filter(shadowed(character, merged)),
            name,
        ),
        forall|k: int|
            0 <= k < (merged.filter(globally_scoped(character)) + global.filter(
                shadowed(character, merged),
            )).len() ==> {
                let d = #[trigger] (merged.filter(globally_scoped(character)) + global.filter(
                    shadowed(character, merged),
                ))[k];
                !names_image(character, d.0) || global.contains(d)
            },
{
    broadcast use vstd::seq_lib::group_filter_ensures;
    let c = merged.filter(character_scoped(character));
    let g1 = merged.filter(globally_scoped(character));
    let g2 = global.filter(shadowed(character, merged));
    let out = g1 + g2;
    if !names_image(merged, name) {
        assert forall|k: int| 0 <= k < c.len() implies (#[trigger] c[k]).0 != name by {
            merged.lemma_filter_contains_rev(character_scoped(character), c[k]);
            assert(c.contains(c[k]));
            let m = choose|m: int| 0 <= m < merged.len() && merged[m] == c[k];
        }
        assert forall|k: int| 0 <= k < out.len() implies (#[trigger] out[k]).0 != name by {
            if k < g1.len() {
                assert(out[k] == g1[k]);
                assert(g1.contains(g1[k]));
                merged.lemma_filter_contains_rev(globally_scoped(character), g1[k]);
                let m = choose|m: int| 0 <= m < merged.len() && merged[m] == g1[k];
            } else {
                assert(out[k] == g2[k - g1.len()]);
                global.lemma_filter_pred(shadowed(character, merged), k - g1.len());
            }
        }
    }
    assert forall|k: int| 0 <= k < out.len() implies {
        let d = #[trigger] out[k];
        !names_image(character, d.0) || global.contains(d)
    } by {
        if k < g1.len() {
            assert(out[k] == g1[k]);
            merged.lemma_filter_pred(globally_scoped(character), k);
        } else {
            let q = k - g1.len();
            assert(out[k] == g2[q]);
            assert(g2.contains(g2[q]));
            global.lemma_filter_contains_rev(shadowed(character, merged), g2[q]);
        }
    }
}

proof fn lemma_add_rooms(m: Map<u64, RoomImageView>, d: RoomImageView, rooms: Seq<u64>)
    ensures
        forall|r: u64|
            #[trigger] add_rooms(m, d, rooms).contains_key(r) <==> (m.contains_key(r)
                || rooms.contains(r)),
        forall|r: u64|
            m.contains_key(r) ==> #[trigger] add_rooms(m, d, rooms)[r] == m[r],
        forall|r: u64|
            !m.contains_key(r) && rooms.contains(r) ==> #[trigger] add_rooms(m, d, rooms)[r] == d,
    decreases rooms.len(),
{
    if rooms.len() > 0 {
        lemma_add_rooms(m, d, rooms.drop_last());
        assert forall|r: u64| rooms.contains(r) <==> (rooms.drop_last().contains(r) || r
            == rooms.last()) by {
            if rooms.contains(r) {
                let k = choose|k: int| 0 <= k < rooms.len() && rooms[k] == r;
                if k < rooms.len() - 1 {
                    assert(rooms.drop_last()[k] == r);
                }
            }
            if rooms.drop_last().contains(r) {
                let k = choose|k: int| 0 <= k < rooms.drop_last().len() && rooms.drop_last()[k] == r;
                assert(rooms[k] == r);
            }
            if r == rooms.last() {
                assert(rooms[rooms.len() - 1] == r);
            }
        }
        let prev = add_rooms(m, d, rooms.drop_last());
        let res = add_rooms(m, d, rooms);
        assert(res == if prev.contains_key(rooms.last()) {
            prev
        } else {
            prev.insert(rooms.last(), d)
        });
        assert forall|r: u64| #[trigger] res.contains_key(r) <==> (m.contains_key(r) || rooms.contains(r)) by {
            assert(prev.contains_key(r) <==> (m.contains_key(r) || rooms.drop_last().contains(r)));
        }
        assert forall|r: u64| m.contains_key(r) implies #[trigger] res[r] == m[r] by {
            assert(prev.contains_key(r));
            assert(prev[r] == m[r]);
        }
        assert forall|r: u64| !m.contains_key(r) && rooms.contains(r) implies #[trigger] res[r] == d by {
            if rooms.drop_last().contains(r) {
                assert(prev[r] == d);
            }
        }
    }
}

/// The index is sound and complete: every room it maps resolves to a
/// named entry that lists that room, and every room listed by a named
/// entry is mapped.
pub proof fn the_index_covers_exactly_the_listed_rooms(images: Seq<RoomImageView>)
    ensures
        forall|r: u64|
            #[trigger] index_spec(images).contains_key(r) ==> trim(index_spec(images)[r].0).len() > 0
                && index_spec(images)[r].1.contains(r) && images.contains(index_spec(images)[r]),
        forall|i: int, r: u64|
            0 <= i < images.len() && trim(images[i].0).len() > 0 && (#[trigger] images[i].1.contains(r))
                ==> index_spec(images).contains_key(r),
    decreases images.len(),
{
    if images.len() > 0 {
        let prev = images.drop_last();
        let d = images.last();
        the_index_covers_exactly_the_listed_rooms(prev);
        lemma_add_rooms(index_spec(prev), d, d.1);
        assert forall|r: u64| #[trigger] index_spec(images).contains_key(r) implies trim(
            index_spec(images)[r].0,
        ).len() > 0 && index_spec(images)[r].1.contains(r) && images.contains(index_spec(images)[r]) by {
            if index_spec(prev).contains_key(r) {
                let e = index_spec(prev)[r];
                let k = choose|k: int| 0 <= k < prev.len() && prev[k] == e;
                assert(images[k] == e);
            } else {
                assert(images[images.len() - 1] == d);
            }
        }
        assert forall|i: int, r: u64|
            0 <= i < images.len() && trim(images[i].0).len() > 0 && (#[trigger] images[i].1.contains(
                r,
            )) implies index_spec(images).contains_key(r) by {
            if i < images.len() - 1 {
                assert(prev[i] == images[i]);
                assert(prev[i].1.contains(r));
            }
        }
    }
}

/// What saving the merged room images writes: the contents for the
/// character file, when it is to be written, and for the global file.
/// Without a character everything is global. With one, the merged view is
/// split (see `split_room_images`), and the character file is written only
/// when it already has or now gets entries or labels.
pub fn save_room_images_split(
    merged: &RoomImagesConfig,
    character: Option<&str>,
    character_prior: &RoomImagesConfig,
    global_prior: &RoomImagesConfig,
) -> (r: (Option<RoomImagesConfig>, RoomImagesConfig))
    ensures
        character is None ==> r.0 is None && images_view(r.1.images@) == images_view(merged.images@)
            && r.1.names@ == merged.names@,
        character is Some ==> {
            let ch = images_view(character_prior.images@);
            let mv = images_view(merged.images@);
            let c_out = mv.filter(character_scoped(ch));
            let c_names = keys_where(merged.names@, character_prior.names@.dom(), true);
            &&& images_view(r.1.images@) == mv.filter(globally_scoped(ch)) + images_view(
                global_prior.images@,
            ).filter(shadowed(ch, mv))
            &&& r.1.names@ == keys_where(merged.names@, character_prior.names@.dom(), false).union_prefer_right(
                keys_where(
                    global_prior.names@,
                    character_prior.names@.dom().intersect(merged.names@.dom()),
                    true,
                ),
            )
            &&& (r.0 is Some <==> (ch.len() > 0 || character_prior.names@.len() > 0 || c_out.len() > 0
                || c_names.len() > 0))
            &&& (r.0 matches Some(c) ==> images_view(c.images@) == c_out && c.names@ == c_names)
        },
{
    if character.is_none() {
        let mut images: Vec<RoomImageDef> = Vec::new();
        let mut i: usize = 0;
        while i < merged.images.len()
            invariant
                i <= merged.images@.len(),
                images_view(images@) == images_view(merged.images@).take(i as int),
            decreases merged.images@.len() - i,
        {
            let ghost before = images_view(images@);
            images.push(merged.images[i].duplicate());
            assert(images_view(images@) =~= before.push(images_view(merged.images@)[i as int]));
            assert(images_view(merged.images@).take(i as int + 1) =~= images_view(merged.images@).take(
                i as int,
            ).push(images_view(merged.images@)[i as int]));
            i = i + 1;
        }
        assert(images_view(merged.images@).take(i as int) =~= images_view(merged.images@));
        let copy = RoomImagesConfig { images, names: merged.names.duplicate_map() };
        return (None, copy);
    }
    let (character_out, global_out) = split_room_images(merged, character_prior, global_prior);
    let participates = character_prior.images.len() > 0 || character_prior.names.len() > 0
        || character_out.images.len() > 0 || character_out.names.len() > 0;
    proof {
        assert(images_view(character_prior.images@).len() == character_prior.images@.len());
        assert(images_view(character_out.images@).len() == character_out.images@.len());
    }
    if participates {
        (Some(character_out), global_out)
    } else {
        (None, global_out)
    }
}

} // verus!
