//! How the blocks of a saved chunk are read: which material a block name
//! stands for, which blocks are left out, and where in its section a block
//! lies.

use vstd::prelude::*;
use vstd::string::StringSliceAdditionalSpecFns;
use crate::common::BlockType;

verus! {

/// Whether `needle` stands in `hay` from place `at` on.
pub open spec fn stands_at(hay: Seq<u8>, needle: Seq<u8>, at: int) -> bool {
    0 <= at && at + needle.len() <= hay.len() && hay.subrange(at, at + needle.len()) == needle
}

/// Whether `needle` stands somewhere in `hay`.
pub open spec fn holds(hay: Seq<u8>, needle: Seq<u8>) -> bool {
    exists|at: int| stands_at(hay, needle, at)
}

/// Names that stand for a material when a block has exactly that name.
pub open spec fn exact_key(i: int) -> (Seq<u8>, BlockType) {
    if i == 0 {
        ("grass_block".spec_bytes(), BlockType::Grass)
    } else if i == 1 {
        ("air".spec_bytes(), BlockType::Air)
    } else if i == 2 {
        ("granite".spec_bytes(), BlockType::Dirt)
    } else if i == 3 {
        ("diorite".spec_bytes(), BlockType::DarkStone)
    } else if i == 4 {
        ("stone".spec_bytes(), BlockType::Stone)
    } else if i == 5 {
        ("gravel".spec_bytes(), BlockType::Stone)
    } else if i == 6 {
        ("andesite".spec_bytes(), BlockType::DarkStone)
    } else if i == 7 {
        ("deepslate".spec_bytes(), BlockType::Stone)
    } else if i == 8 {
        ("red_sand".spec_bytes(), BlockType::RedSand)
    } else if i == 9 {
        ("cobblestone".spec_bytes(), BlockType::Cobblestone)
    } else if i == 10 {
        ("oak_stairs".spec_bytes(), BlockType::Planks)
    } else {
        ("white_terracotta".spec_bytes(), BlockType::Cobblestone)
    }
}

/// Number of names that stand for a material exactly.
pub const EXACT_KEYS: usize = 12;

/// Parts of names that stand for a material when a block's name holds them.
/// A name can hold more than one; the first in this order decides.
pub open spec fn partial_key(i: int) -> (Seq<u8>, BlockType) {
    if i == 0 {
        ("dirt".spec_bytes(), BlockType::Dirt)
    } else if i == 1 {
        ("stone".spec_bytes(), BlockType::Cobblestone)
    } else if i == 2 {
        ("sand".spec_bytes(), BlockType::Sand)
    } else if i == 3 {
        ("ore".spec_bytes(), BlockType::Ore)
    } else if i == 4 {
        ("log".spec_bytes(), BlockType::Wood)
    } else if i == 5 {
        ("leaves".spec_bytes(), BlockType::Leaves)
    } else if i == 6 {
        ("water".spec_bytes(), BlockType::Water)
    } else if i == 7 {
        ("lava".spec_bytes(), BlockType::Lava)
    } else if i == 8 {
        ("plank".spec_bytes(), BlockType::Planks)
    } else {
        ("glass".spec_bytes(), BlockType::Glass)
    }
}

/// Number of parts of names that stand for a material.
pub const PARTIAL_KEYS: usize = 10;

/// Names of blocks that are left out when nothing else is known of them.
pub open spec fn blacklisted_name(i: int) -> Seq<u8> {
    if i == 0 {
        "dead_bush".spec_bytes()
    } else if i == 1 {
        "grass".spec_bytes()
    } else if i == 2 {
        "fern".spec_bytes()
    } else if i == 3 {
        "tall_grass".spec_bytes()
    } else if i == 4 {
        "vine".spec_bytes()
    } else if i == 5 {
        "cocoa".spec_bytes()
    } else if i == 6 {
        "poppy".spec_bytes()
    } else if i == 7 {
        "dandelion".spec_bytes()
    } else if i == 8 {
        "torch".spec_bytes()
    } else if i == 9 {
        "wall_torch".spec_bytes()
    } else {
        "oak_door".spec_bytes()
    }
}

/// Number of names that are left out.
pub const BLACKLISTED: usize = 11;

/// What every block name starts with.
pub open spec fn name_prefix() -> Seq<u8> {
    "minecraft:".spec_bytes()
}

/// The material of the first exact key from `from` on that is `id`.
pub open spec fn exact_match(id: Seq<u8>, from: int) -> Option<BlockType>
    decreases 12 - from,
{
    if from >= 12 {
        None
    } else if exact_key(from).0 == id {
        Some(exact_key(from).1)
    } else {
        exact_match(id, from + 1)
    }
}

/// The material of the first partial key from `from` on that `id` holds.
pub open spec fn partial_match(id: Seq<u8>, from: int) -> Option<BlockType>
    decreases 10 - from,
{
    if from >= 10 {
        None
    } else if holds(id, partial_key(from).0) {
        Some(partial_key(from).1)
    } else {
        partial_match(id, from + 1)
    }
}

/// The material that a block with the name `id` is made of: that of the
/// exact key it is, else that of the first partial key it holds, else
/// unknown.
pub open spec fn block_type_of(id: Seq<u8>) -> BlockType {
    match exact_match(id, 0) {
        Some(block_type) => block_type,
        None => match partial_match(id, 0) {
            Some(block_type) => block_type,
            None => BlockType::Unknown,
        },
    }
}

/// Whether `id` is one of the names that are left out.
pub open spec fn is_blacklisted(id: Seq<u8>) -> bool {
    exists|i: int| 0 <= i < 11 && #[trigger] blacklisted_name(i) == id
}

/// What a chunk takes from a block with the full name `name`: nothing if the
/// name lacks the prefix, if the block is air, or if it is unknown and on
/// the blacklist; else the block's material.
pub open spec fn block_taken(name: Seq<u8>) -> Option<BlockType> {
    if !stands_at(name, name_prefix(), 0) {
        None
    } else {
        let id = name.subrange(name_prefix().len() as int, name.len() as int);
        let block_type = block_type_of(id);
        if block_type == BlockType::Air || (block_type == BlockType::Unknown && is_blacklisted(
            id,
        )) {
            None
        } else {
            Some(block_type)
        }
    }
}

/// The `i`-th exact key.
fn get_exact_key(i: usize) -> (key: (&'static str, BlockType))
    requires
        i < EXACT_KEYS,
    ensures
        key.0.spec_bytes() == exact_key(i as int).0,
        key.1 == exact_key(i as int).1,
{
    if i == 0 {
        ("grass_block", BlockType::Grass)
    } else if i == 1 {
        ("air", BlockType::Air)
    } else if i == 2 {
        ("granite", BlockType::Dirt)
    } else if i == 3 {
        ("diorite", BlockType::DarkStone)
    } else if i == 4 {
        ("stone", BlockType::Stone)
    } else if i == 5 {
        ("gravel", BlockType::Stone)
    } else if i == 6 {
        ("andesite", BlockType::DarkStone)
    } else if i == 7 {
        ("deepslate", BlockType::Stone)
    } else if i == 8 {
        ("red_sand", BlockType::RedSand)
    } else if i == 9 {
        ("cobblestone", BlockType::Cobblestone)
    } else if i == 10 {
        ("oak_stairs", BlockType::Planks)
    } else {
        ("white_terracotta", BlockType::Cobblestone)
    }
}

/// The `i`-th partial key.
fn get_partial_key(i: usize) -> (key: (&'static str, BlockType))
    requires
        i < PARTIAL_KEYS,
    ensures
        key.0.spec_bytes() == partial_key(i as int).0,
        key.1 == partial_key(i as int).1,
{
    if i == 0 {
        ("dirt", BlockType::Dirt)
    } else if i == 1 {
        ("stone", BlockType::Cobblestone)
    } else if i == 2 {
        ("sand", BlockType::Sand)
    } else if i == 3 {
        ("ore", BlockType::Ore)
    } else if i == 4 {
        ("log", BlockType::Wood)
    } else if i == 5 {
        ("leaves", BlockType::Leaves)
    } else if i == 6 {
        ("water", BlockType::Water)
    } else if i == 7 {
        ("lava", BlockType::Lava)
    } else if i == 8 {
        ("plank", BlockType::Planks)
    } else {
        ("glass", BlockType::Glass)
    }
}

/// The `i`-th name that is left out.
fn get_blacklisted_name(i: usize) -> (name: &'static str)
    requires
        i < BLACKLISTED,
    ensures
        name.spec_bytes() == blacklisted_name(i as int),
{
    if i == 0 {
        "dead_bush"
    } else if i == 1 {
        "grass"
    } else if i == 2 {
        "fern"
    } else if i == 3 {
        "tall_grass"
    } else if i == 4 {
        "vine"
    } else if i == 5 {
        "cocoa"
    } else if i == 6 {
        "poppy"
    } else if i == 7 {
        "dandelion"
    } else if i == 8 {
        "torch"
    } else if i == 9 {
        "wall_torch"
    } else {
        "oak_door"
    }
}

/// Whether `needle` stands in `hay` from place `at` on.
fn matches_at(hay: &[u8], needle: &[u8], at: usize) -> (found: bool)
    requires
        at <= hay@.len(),
    ensures
        found == stands_at(hay@, needle@, at as int),
{
    if needle.len() > hay.len() - at {
        return false;
    }
    let mut k: usize = 0;
    while k < needle.len()
        invariant
            at + needle@.len() <= hay@.len() <= usize::MAX,
            k <= needle.len(),
            forall|j: int| 0 <= j < k ==> hay@[at + j] == needle@[j],
        decreases needle.len() - k,
    {
        if hay[at + k] != needle[k] {
            assert(hay@.subrange(at as int, at + needle@.len())[k as int] != needle@[k as int]);
            return false;
        }
        k += 1;
    }
    assert(hay@.subrange(at as int, at + needle@.len()) =~= needle@);
    true
}

/// Whether the part of `hay` from `from` on is `key`.
fn is_from(hay: &[u8], from: usize, key: &[u8]) -> (same: bool)
    requires
        from <= hay@.len(),
    ensures
        same == (hay@.subrange(from as int, hay@.len() as int) == key@),
{
    if hay.len() - from != key.len() {
        return false;
    }
    let same = matches_at(hay, key, from);
    same
}

/// Whether the part of `hay` from `from` on holds `needle`.
fn holds_from(hay: &[u8], from: usize, needle: &[u8]) -> (found: bool)
    requires
        from <= hay@.len(),
    ensures
        found == holds(hay@.subrange(from as int, hay@.len() as int), needle@),
{
    let ghost id = hay@.subrange(from as int, hay@.len() as int);
    let mut at: usize = from;
    while at < hay.len()
        invariant
            from <= at <= hay@.len(),
            id == hay@.subrange(from as int, hay@.len() as int),
            forall|j: int| 0 <= j < at - from ==> !stands_at(id, needle@, j),
        decreases hay.len() - at,
    {
        proof {
            lemma_stands_in_part(hay@, needle@, from as int, at as int);
        }
        if matches_at(hay, needle, at) {
            return true;
        }
        at += 1;
    }
    proof {
        lemma_stands_in_part(hay@, needle@, from as int, at as int);
    }
    // Only the empty needle stands at the very end.
    matches_at(hay, needle, at)
}

/// A needle stands at a place of a hay's rear part exactly when it stands at
/// that place of the hay, counted from the hay's start.
proof fn lemma_stands_in_part(hay: Seq<u8>, needle: Seq<u8>, from: int, at: int)
    requires
        0 <= from <= at <= hay.len(),
    ensures
        stands_at(hay.subrange(from, hay.len() as int), needle, at - from) == stands_at(
            hay,
            needle,
            at,
        ),
{
    let id = hay.subrange(from, hay.len() as int);
    if at + needle.len() <= hay.len() {
        assert(id.subrange(at - from, at - from + needle.len()) =~= hay.subrange(
            at,
            at + needle.len(),
        ));
    }
}

/// The material that the block whose name is `name` from place `from` on is
/// made of.
fn classify(name: &[u8], from: usize) -> (block_type: BlockType)
    requires
        from <= name@.len(),
    ensures
        block_type == block_type_of(name@.subrange(from as int, name@.len() as int)),
{
    let ghost id = name@.subrange(from as int, name@.len() as int);
    let mut i: usize = 0;
    while i < EXACT_KEYS
        invariant
            from <= name@.len(),
            id == name@.subrange(from as int, name@.len() as int),
            i <= EXACT_KEYS,
            exact_match(id, 0) == exact_match(id, i as int),
        decreases EXACT_KEYS - i,
    {
        let (key, block_type) = get_exact_key(i);
        if is_from(name, from, key.as_bytes()) {
            return block_type;
        }
        i += 1;
    }
    let mut k: usize = 0;
    while k < PARTIAL_KEYS
        invariant
            from <= name@.len(),
            id == name@.subrange(from as int, name@.len() as int),
            exact_match(id, 0) is None,
            k <= PARTIAL_KEYS,
            partial_match(id, 0) == partial_match(id, k as int),
        decreases PARTIAL_KEYS - k,
    {
        let (key, block_type) = get_partial_key(k);
        if holds_from(name, from, key.as_bytes()) {
            return block_type;
        }
        k += 1;
    }
    BlockType::Unknown
}

/// Whether the part of `name` from `from` on is one of the names that are
/// left out.
fn on_blacklist(name: &[u8], from: usize) -> (listed: bool)
    requires
        from <= name@.len(),
    ensures
        listed == is_blacklisted(name@.subrange(from as int, name@.len() as int)),
{
    let mut i: usize = 0;
    while i < BLACKLISTED
        invariant
            from <= name@.len(),
            i <= BLACKLISTED,
            forall|j: int|
                0 <= j < i ==> #[trigger] blacklisted_name(j) != name@.subrange(
                    from as int,
                    name@.len() as int,
                ),
        decreases BLACKLISTED - i,
    {
        let listed = get_blacklisted_name(i);
        if is_from(name, from, listed.as_bytes()) {
            return true;
        }
        i += 1;
    }
    false
}

/// The material that a block with the name `block_id`, given without its
/// prefix, is made of.
pub fn get_block_type_ng(block_id: &str) -> (block_type: BlockType)
    ensures
        block_type == block_type_of(block_id.spec_bytes()),
{
    let id = block_id.as_bytes();
    assert(id@.subrange(0, id@.len() as int) == id@);
    classify(id, 0)
}

/// What a chunk takes from a block with the full name `name`: its material,
/// or nothing if the block is to be left out.
pub fn get_block_to_push(name: &str) -> (taken: Option<BlockType>)
    ensures
        taken == block_taken(name.spec_bytes()),
{
    let bytes = name.as_bytes();
    let prefix = "minecraft:".as_bytes();
    if !matches_at(bytes, prefix, 0) {
        return None;
    }
    let from = prefix.len();
    let block_type = classify(bytes, from);
    match block_type {
        BlockType::Unknown => {
            if on_blacklist(bytes, from) {
                return None;
            }
        },
        BlockType::Air => {
            return None;
        },
        _ => {},
    }
    Some(block_type)
}

/// The place within its section of the `i`-th block of a section: x runs
/// fastest, then z, then y, each from 0 to 15.
pub fn get_section_place(i: usize) -> (place: (usize, usize, usize))
    ensures
        place.0 == i % 16,
        place.1 == (i / 256) % 16,
        place.2 == (i / 16) % 16,
{
    assert(i & 0x000F == i % 16) by (bit_vector);
    assert((i & 0x0F00) >> 8 == (i / 256) % 16) by (bit_vector);
    assert((i & 0x00F0) >> 4 == (i / 16) % 16) by (bit_vector);
    let x = i & 0x000F;
    let y = (i & 0x0F00) >> 8;
    let z = (i & 0x00F0) >> 4;
    (x, y, z)
}

} // verus!
