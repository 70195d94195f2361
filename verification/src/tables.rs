//! The two lookup tables of marching cubes, and what holds of them.
//!
//! A cube has 8 corners and 12 edges, numbered as usual: corners 0 to 3 go
//! round the bottom face, corners 4 to 7 lie above them; edges 0 to 3 go round
//! the bottom face, edges 4 to 7 round the top face, and edges 8 to 11 stand
//! between the two. The case of a cube is the number whose bit `i` is set
//! exactly when corner `i` is not below the surface.

use vstd::prelude::*;

verus! {

/// Number of cases a cube can be in.
pub const CASES: usize = 256;

/// Number of edges of a cube.
pub const CUBE_EDGES: usize = 12;

/// Number of corners of a cube.
pub const CUBE_VERTICES: usize = 8;

/// A case yields at most this many triangles.
pub const TRIANGLES: usize = 5;

/// Number of corners of a triangle.
pub const TRIANGLE_VERTICES: usize = 3;

/// Number of entries in a row of the triangle table.
pub const TRIANGLE_ROW: usize = 15;

/// What the triangle table holds where a row has no further edge.
pub const EDGE_INVALID_INDEX: i16 = -1;

/// For each case, the edges on which the surface crosses the cube: bit `e` is
/// set when edge `e` is crossed.
pub const EDGES_LOOKUP: [u16; 256] = [
    0x000, 0x109, 0x203, 0x30a, 0x406, 0x50f, 0x605, 0x70c,
    0x80c, 0x905, 0xa0f, 0xb06, 0xc0a, 0xd03, 0xe09, 0xf00,
    0x190, 0x099, 0x393, 0x29a, 0x596, 0x49f, 0x795, 0x69c,
    0x99c, 0x895, 0xb9f, 0xa96, 0xd9a, 0xc93, 0xf99, 0xe90,
    0x230, 0x339, 0x033, 0x13a, 0x636, 0x73f, 0x435, 0x53c,
    0xa3c, 0xb35, 0x83f, 0x936, 0xe3a, 0xf33, 0xc39, 0xd30,
    0x3a0, 0x2a9, 0x1a3, 0x0aa, 0x7a6, 0x6af, 0x5a5, 0x4ac,
    0xbac, 0xaa5, 0x9af, 0x8a6, 0xfaa, 0xea3, 0xda9, 0xca0,
    0x460, 0x569, 0x663, 0x76a, 0x066, 0x16f, 0x265, 0x36c,
    0xc6c, 0xd65, 0xe6f, 0xf66, 0x86a, 0x963, 0xa69, 0xb60,
    0x5f0, 0x4f9, 0x7f3, 0x6fa, 0x1f6, 0x0ff, 0x3f5, 0x2fc,
    0xdfc, 0xcf5, 0xfff, 0xef6, 0x9fa, 0x8f3, 0xbf9, 0xaf0,
    0x650, 0x759, 0x453, 0x55a, 0x256, 0x35f, 0x055, 0x15c,
    0xe5c, 0xf55, 0xc5f, 0xd56, 0xa5a, 0xb53, 0x859, 0x950,
    0x7c0, 0x6c9, 0x5c3, 0x4ca, 0x3c6, 0x2cf, 0x1c5, 0x0cc,
    0xfcc, 0xec5, 0xdcf, 0xcc6, 0xbca, 0xac3, 0x9c9, 0x8c0,
    0x8c0, 0x9c9, 0xac3, 0xbca, 0xcc6, 0xdcf, 0xec5, 0xfcc,
    0x0cc, 0x1c5, 0x2cf, 0x3c6, 0x4ca, 0x5c3, 0x6c9, 0x7c0,
    0x950, 0x859, 0xb53, 0xa5a, 0xd56, 0xc5f, 0xf55, 0xe5c,
    0x15c, 0x055, 0x35f, 0x256, 0x55a, 0x453, 0x759, 0x650,
    0xaf0, 0xbf9, 0x8f3, 0x9fa, 0xef6, 0xfff, 0xcf5, 0xdfc,
    0x2fc, 0x3f5, 0x0ff, 0x1f6, 0x6fa, 0x7f3, 0x4f9, 0x5f0,
    0xb60, 0xa69, 0x963, 0x86a, 0xf66, 0xe6f, 0xd65, 0xc6c,
    0x36c, 0x265, 0x16f, 0x066, 0x76a, 0x663, 0x569, 0x460,
    0xca0, 0xda9, 0xea3, 0xfaa, 0x8a6, 0x9af, 0xaa5, 0xbac,
    0x4ac, 0x5a5, 0x6af, 0x7a6, 0x0aa, 0x1a3, 0x2a9, 0x3a0,
    0xd30, 0xc39, 0xf33, 0xe3a, 0x936, 0x83f, 0xb35, 0xa3c,
    0x53c, 0x435, 0x73f, 0x636, 0x13a, 0x033, 0x339, 0x230,
    0xe90, 0xf99, 0xc93, 0xd9a, 0xa96, 0xb9f, 0x895, 0x99c,
    0x69c, 0x795, 0x49f, 0x596, 0x29a, 0x393, 0x099, 0x190,
    0xf00, 0xe09, 0xd03, 0xc0a, 0xb06, 0xa0f, 0x905, 0x80c,
    0x70c, 0x605, 0x50f, 0x406, 0x30a, 0x203, 0x109, 0x000,
];

/// For each case, the edges whose crossings are the corners of its triangles,
/// three to a triangle. A row packs 15 entries of four bits each, the first
/// entry in the lowest bits; an entry of 15 stands for "no edge", and after
/// the first such entry a row holds no other.
pub const TRIANGLES_LOOKUP: [u64; 256] = [
    0xfffffffffffffff, 0xffffffffffff380, 0xffffffffffff910, 0xfffffffff189381,
    0xffffffffffffa21, 0xfffffffffa21380, 0xfffffffff920a29, 0xffffff89a8a2382,
    0xffffffffffff2b3, 0xfffffffff0b82b0, 0xfffffffffb32091, 0xffffffb89b912b1,
    0xfffffffff3ab1a3, 0xffffffab8a801a0, 0xffffff9ab9b3093, 0xfffffffffb8aa89,
    0xffffffffffff874, 0xfffffffff437034, 0xfffffffff748910, 0xffffff137174914,
    0xfffffffff748a21, 0xffffffa21403743, 0xffffff748209a29, 0xfff4973727929a2,
    0xfffffffff2b3748, 0xffffff40242b74b, 0xffffffb32748109, 0xfff1292b9b49b74,
    0xffffff487ab31a3, 0xfff4b7401b41ab1, 0xfff30bab9b09874, 0xffffffab99b4b74,
    0xffffffffffff459, 0xfffffffff380459, 0xfffffffff051450, 0xffffff513538458,
    0xfffffffff459a21, 0xffffff594a21803, 0xffffff204245a25, 0xfff8434535235a2,
    0xfffffffffb32459, 0xffffff594b802b0, 0xffffffb32510450, 0xfff584b82852512,
    0xffffff45931ab3a, 0xfffab81a8180594, 0xfff30bab5b05045, 0xffffffb8aa85845,
    0xfffffffff975879, 0xffffff375359039, 0xffffff751710870, 0xfffffffff753351,
    0xffffff21a759879, 0xfff37503505921a, 0xfff25a758528208, 0xffffff7533525a2,
    0xffffff2b3987597, 0xfffb72029279759, 0xfff751871810b32, 0xffffff51771b12b,
    0xfffb3a31a758859, 0x0aba010b7905075, 0x07570805a30b0ab, 0xfffffffff5b75ab,
    0xffffffffffff56a, 0xfffffffff6a5380, 0xfffffffff6a5109, 0xffffff6a5891381,
    0xfffffffff162561, 0xffffff803621561, 0xffffff620609569, 0xfff823625285895,
    0xfffffffff56ab32, 0xffffff56a02b80b, 0xffffff6a5b32910, 0xfffb892b92916a5,
    0xffffff315356b36, 0xfff6b51505b0b80, 0xfff9505606306b3, 0xffffff89bb96956,
    0xfffffffff8746a5, 0xffffffa56374034, 0xffffff7486a5091, 0xfff49737179156a,
    0xffffff874156216, 0xfff743403625521, 0xfff620560509748, 0x962695923497937,
    0xffffff56a4872b3, 0xfffb720242746a5, 0xfff6a5b32874910, 0x6a54b7b492b9129,
    0xfff6b51535b3748, 0xb404b7b016b5b15, 0x74836b630560950, 0xfff9b7974b96956,
    0xfffffffffa4694a, 0xffffff380a946a4, 0xffffff04606a10a, 0xfffa16468618138,
    0xffffff462421941, 0xfff462942921803, 0xfffffffff624420, 0xffffff624428238,
    0xffffff32b46a94a, 0xfff6a4a94b82280, 0xfffa164606102b3, 0x1b8b12184a16146,
    0xfff36b319639469, 0x14641916b0181b8, 0xffffff4600636b3, 0xfffffffff86b846,
    0xffffffa98a876a7, 0xfffa76a907a0370, 0xfff0818717a176a, 0xffffff37117a76a,
    0xfff768981861621, 0x937390976192962, 0xffffff206607087, 0xfffffffff276237,
    0xfff76898a86ab32, 0x7a9a76790b72702, 0xb32a767a1871081, 0xfff17616a71b12b,
    0x63136b619768698, 0xfffffffff76b190, 0xfff06b0b3607087, 0xffffffffffff6b7,
    0xffffffffffffb67, 0xfffffffff67b803, 0xfffffffff67b910, 0xffffff67b138918,
    0xfffffffff7b621a, 0xffffff7b6803a21, 0xffffff7b69a2092, 0xfff89a38a3a27b6,
    0xfffffffff726327, 0xffffff026067807, 0xffffff910732672, 0xfff678891681261,
    0xffffff73171a67a, 0xfff801781a7167a, 0xfff7a69a0a70730, 0xffffff9a88a7a67,
    0xfffffffff68b486, 0xffffff640603b63, 0xffffff109648b68, 0xfff63b139369649,
    0xffffff1a28b6486, 0xfff640b60b03a21, 0xfff9a2920b648b4, 0x36463b34923a39a,
    0xffffff264248328, 0xfffffffff264240, 0xfff834642432091, 0xffffff642241491,
    0xfff1a6648168318, 0xffffff40660a01a, 0x39a9303a6834364, 0xfffffffff4a649a,
    0xfffffffffb67594, 0xffffff67b594380, 0xffffffb67045105, 0xfff51345343867b,
    0xffffffb6721a459, 0xfff594380a217b6, 0xfff204a24a45b67, 0x67b25a523453843,
    0xffffff945267327, 0xfff786260680459, 0xfff045051673263, 0x851584812786826,
    0xfff73167161a459, 0x459078701671a61, 0xa737a6a305a4a04, 0xfffa84a458a7a67,
    0xffffff98b9b6596, 0xfff590650360b63, 0xfffb65510b508b0, 0xffffff1355363b6,
    0xfff65b8b9b59a21, 0xa21965690b603b0, 0x52025a50865b58b, 0xfff35a3a25363b6,
    0xfff283265825985, 0xffffff260069659, 0x826283865081851, 0xfffffffff612651,
    0x698965683a61631, 0xfff06505960a01a, 0xfffffffffa65830, 0xffffffffffff65a,
    0xfffffffffb57a5b, 0xffffff03857ba5b, 0xffffff091ba57b5, 0xfff1381897ba57a,
    0xffffff15717b21b, 0xfffb27571721380, 0xfff7b2209729579, 0x289823295b27257,
    0xffffff573532a52, 0xfff52a578258028, 0xfff2a37353a5109, 0x25752a278129289,
    0xfffffffff573531, 0xffffff571170780, 0xffffff735539309, 0xfffffffff795789,
    0xffffff8ba8a5485, 0xfff03bba50b5405, 0xfff54aba8a48910, 0x41314943b54a4ba,
    0xfff8548b2582152, 0xb151b2b543b0b40, 0x58b8545b2950520, 0xfffffffff3b2549,
    0xfff483543253a52, 0xffffff0244252a5, 0x910854583a532a3, 0xfff2492914252a5,
    0xffffff153358548, 0xfffffffff501540, 0xfff530509358548, 0xffffffffffff549,
    0xffffffba9b947b4, 0xfffba97b9794380, 0xfffb470414b1ba1, 0x4bab474a1843413,
    0xfff219b294b97b4, 0x3801b2b197b9479, 0xffffff04224b47b, 0xfff42343824b47b,
    0xfff947732972a92, 0x70207872a4797a9, 0xa040a1a472a3a73, 0xfffffffff4782a1,
    0xffffff317714194, 0xfff178180714194, 0xfffffffff347304, 0xffffffffffff784,
    0xfffffffff8ba8a9, 0xffffffa9bb93903, 0xffffffba88a0a10, 0xfffffffffa3ba13,
    0xffffff8b99b1b21, 0xfff9b2921b93903, 0xfffffffffb08b20, 0xffffffffffffb23,
    0xffffff98aa82832, 0xfffffffff2902a9, 0xfff8a1810a82832, 0xffffffffffff2a1,
    0xfffffffff819831, 0xffffffffffff190, 0xffffffffffff830, 0xfffffffffffffff,
];

/// Whether bit `e` of `m` is set, for `e` below 12.
pub open spec fn bit_set(m: int, e: int) -> bool {
    if e == 0 {
        m % 2 == 1
    } else if e == 1 {
        (m / 2) % 2 == 1
    } else if e == 2 {
        (m / 4) % 2 == 1
    } else if e == 3 {
        (m / 8) % 2 == 1
    } else if e == 4 {
        (m / 16) % 2 == 1
    } else if e == 5 {
        (m / 32) % 2 == 1
    } else if e == 6 {
        (m / 64) % 2 == 1
    } else if e == 7 {
        (m / 128) % 2 == 1
    } else if e == 8 {
        (m / 256) % 2 == 1
    } else if e == 9 {
        (m / 512) % 2 == 1
    } else if e == 10 {
        (m / 1024) % 2 == 1
    } else {
        (m / 2048) % 2 == 1
    }
}

/// The `j`-th group of four bits of `row`, for `j` below 15.
pub open spec fn nibble(row: int, j: int) -> int {
    if j == 0 {
        row % 16
    } else if j == 1 {
        (row / 0x10) % 16
    } else if j == 2 {
        (row / 0x100) % 16
    } else if j == 3 {
        (row / 0x1000) % 16
    } else if j == 4 {
        (row / 0x1_0000) % 16
    } else if j == 5 {
        (row / 0x10_0000) % 16
    } else if j == 6 {
        (row / 0x100_0000) % 16
    } else if j == 7 {
        (row / 0x1000_0000) % 16
    } else if j == 8 {
        (row / 0x1_0000_0000) % 16
    } else if j == 9 {
        (row / 0x10_0000_0000) % 16
    } else if j == 10 {
        (row / 0x100_0000_0000) % 16
    } else if j == 11 {
        (row / 0x1000_0000_0000) % 16
    } else if j == 12 {
        (row / 0x1_0000_0000_0000) % 16
    } else if j == 13 {
        (row / 0x10_0000_0000_0000) % 16
    } else {
        (row / 0x100_0000_0000_0000) % 16
    }
}

/// The corner at which edge `e` starts.
pub open spec fn edge_start(e: int) -> int {
    if e < 8 {
        e
    } else {
        e - 8
    }
}

/// The corner at which edge `e` ends.
pub open spec fn edge_end(e: int) -> int {
    if e == 3 {
        0
    } else if e == 7 {
        4
    } else if e < 8 {
        e + 1
    } else {
        e - 4
    }
}

/// Whether, in case `case`, exactly one end of edge `e` is below the surface.
pub open spec fn edge_crossed(case: int, e: int) -> bool {
    bit_set(case, edge_start(e)) != bit_set(case, edge_end(e))
}

/// Whether the edge table says that edge `e` is crossed in case `case`.
pub open spec fn edge_listed(case: int, e: int) -> bool {
    bit_set(EDGES_LOOKUP[case] as int, e)
}

/// Entry `j` of the row of `case` in the triangle table: an edge, or -1.
pub open spec fn triangle_entry(case: int, j: int) -> int {
    let entry = nibble(TRIANGLES_LOOKUP[case] as int, j);
    if entry == 15 {
        -1
    } else {
        entry
    }
}

/// What holds of entry `j` of the row of `case`: it is -1 or an edge that is
/// crossed in that case, a row runs out only where a triangle is complete,
/// and once it has run out it holds nothing more.
pub open spec fn triangle_entry_sound(case: int, j: int) -> bool {
    let entry = triangle_entry(case, j);
    &&& -1 <= entry < 12
    &&& entry >= 0 ==> edge_crossed(case, entry)
    &&& entry == -1 && j % 3 != 0 ==> triangle_entry(case, j - 1) == -1
    &&& entry == -1 && j < 14 ==> triangle_entry(case, j + 1) == -1
}

/// What holds of the entry for edge `e` in the row of `case`: the edge is
/// listed exactly when it is crossed.
pub open spec fn edge_entry_sound(case: int, e: int) -> bool {
    edge_listed(case, e) == edge_crossed(case, e)
}

/// The edges on which the surface crosses a cube in case `case`.
pub fn intersected_edges(case: usize) -> (mask: u16)
    requires
        case < CASES,
    ensures
        mask == EDGES_LOOKUP[case as int],
{
    EDGES_LOOKUP[case]
}

/// Whether `mask`, read from the edge table, lists edge `edge_index`.
pub fn lists_edge(mask: u16, edge_index: u16) -> (listed: bool)
    requires
        edge_index < CUBE_EDGES,
    ensures
        listed == bit_set(mask as int, edge_index as int),
{
    assert((mask & (1u16 << 0u16)) != 0 <==> mask % 2 == 1) by (bit_vector);
    assert((mask & (1u16 << 1u16)) != 0 <==> (mask / 2) % 2 == 1) by (bit_vector);
    assert((mask & (1u16 << 2u16)) != 0 <==> (mask / 4) % 2 == 1) by (bit_vector);
    assert((mask & (1u16 << 3u16)) != 0 <==> (mask / 8) % 2 == 1) by (bit_vector);
    assert((mask & (1u16 << 4u16)) != 0 <==> (mask / 16) % 2 == 1) by (bit_vector);
    assert((mask & (1u16 << 5u16)) != 0 <==> (mask / 32) % 2 == 1) by (bit_vector);
    assert((mask & (1u16 << 6u16)) != 0 <==> (mask / 64) % 2 == 1) by (bit_vector);
    assert((mask & (1u16 << 7u16)) != 0 <==> (mask / 128) % 2 == 1) by (bit_vector);
    assert((mask & (1u16 << 8u16)) != 0 <==> (mask / 256) % 2 == 1) by (bit_vector);
    assert((mask & (1u16 << 9u16)) != 0 <==> (mask / 512) % 2 == 1) by (bit_vector);
    assert((mask & (1u16 << 10u16)) != 0 <==> (mask / 1024) % 2 == 1) by (bit_vector);
    assert((mask & (1u16 << 11u16)) != 0 <==> (mask / 2048) % 2 == 1) by (bit_vector);
    (mask & (1 << edge_index)) != 0
}

/// Entry `i` of the row of `case` in the triangle table.
pub fn triangle_edge(case: usize, i: usize) -> (edge: i16)
    requires
        case < CASES,
        i < TRIANGLE_ROW,
    ensures
        edge == triangle_entry(case as int, i as int),
        -1 <= edge < 16,
{
    let row: u64 = TRIANGLES_LOOKUP[case];
    let entry: u64 = if i == 0 {
        row % 16
    } else if i == 1 {
        (row / 0x10) % 16
    } else if i == 2 {
        (row / 0x100) % 16
    } else if i == 3 {
        (row / 0x1000) % 16
    } else if i == 4 {
        (row / 0x1_0000) % 16
    } else if i == 5 {
        (row / 0x10_0000) % 16
    } else if i == 6 {
        (row / 0x100_0000) % 16
    } else if i == 7 {
        (row / 0x1000_0000) % 16
    } else if i == 8 {
        (row / 0x1_0000_0000) % 16
    } else if i == 9 {
        (row / 0x10_0000_0000) % 16
    } else if i == 10 {
        (row / 0x100_0000_0000) % 16
    } else if i == 11 {
        (row / 0x1000_0000_0000) % 16
    } else if i == 12 {
        (row / 0x1_0000_0000_0000) % 16
    } else if i == 13 {
        (row / 0x10_0000_0000_0000) % 16
    } else {
        (row / 0x100_0000_0000_0000) % 16
    };
    if entry == 15 {
        EDGE_INVALID_INDEX
    } else {
        entry as i16
    }
}

proof fn lemma_cases_0_to_15(case: int, k: int)
    requires
        0 <= case <= 15,
        0 <= k < 15,
    ensures
        k < 12 ==> edge_entry_sound(case, k),
        triangle_entry_sound(case, k),
{
    if case == 0 {
        assert(EDGES_LOOKUP[0] == 0x000);
        assert(TRIANGLES_LOOKUP[0] == 0xfffffffffffffff);
    }
    if case == 1 {
        assert(EDGES_LOOKUP[1] == 0x109);
        assert(TRIANGLES_LOOKUP[1] == 0xffffffffffff380);
    }
    if case == 2 {
        assert(EDGES_LOOKUP[2] == 0x203);
        assert(TRIANGLES_LOOKUP[2] == 0xffffffffffff910);
    }
    if case == 3 {
        assert(EDGES_LOOKUP[3] == 0x30a);
        assert(TRIANGLES_LOOKUP[3] == 0xfffffffff189381);
    }
    if case == 4 {
        assert(EDGES_LOOKUP[4] == 0x406);
        assert(TRIANGLES_LOOKUP[4] == 0xffffffffffffa21);
    }
    if case == 5 {
        assert(EDGES_LOOKUP[5] == 0x50f);
        assert(TRIANGLES_LOOKUP[5] == 0xfffffffffa21380);
    }
    if case == 6 {
        assert(EDGES_LOOKUP[6] == 0x605);
        assert(TRIANGLES_LOOKUP[6] == 0xfffffffff920a29);
    }
    if case == 7 {
        assert(EDGES_LOOKUP[7] == 0x70c);
        assert(TRIANGLES_LOOKUP[7] == 0xffffff89a8a2382);
    }
    if case == 8 {
        assert(EDGES_LOOKUP[8] == 0x80c);
        assert(TRIANGLES_LOOKUP[8] == 0xffffffffffff2b3);
    }
    if case == 9 {
        assert(EDGES_LOOKUP[9] == 0x905);
        assert(TRIANGLES_LOOKUP[9] == 0xfffffffff0b82b0);
    }
    if case == 10 {
        assert(EDGES_LOOKUP[10] == 0xa0f);
        assert(TRIANGLES_LOOKUP[10] == 0xfffffffffb32091);
    }
    if case == 11 {
        assert(EDGES_LOOKUP[11] == 0xb06);
        assert(TRIANGLES_LOOKUP[11] == 0xffffffb89b912b1);
    }
    if case == 12 {
        assert(EDGES_LOOKUP[12] == 0xc0a);
        assert(TRIANGLES_LOOKUP[12] == 0xfffffffff3ab1a3);
    }
    if case == 13 {
        assert(EDGES_LOOKUP[13] == 0xd03);
        assert(TRIANGLES_LOOKUP[13] == 0xffffffab8a801a0);
    }
    if case == 14 {
        assert(EDGES_LOOKUP[14] == 0xe09);
        assert(TRIANGLES_LOOKUP[14] == 0xffffff9ab9b3093);
    }
    if case == 15 {
        assert(EDGES_LOOKUP[15] == 0xf00);
        assert(TRIANGLES_LOOKUP[15] == 0xfffffffffb8aa89);
    }
}

proof fn lemma_cases_16_to_31(case: int, k: int)
    requires
        16 <= case <= 31,
        0 <= k < 15,
    ensures
        k < 12 ==> edge_entry_sound(case, k),
        triangle_entry_sound(case, k),
{
    if case == 16 {
        assert(EDGES_LOOKUP[16] == 0x190);
        assert(TRIANGLES_LOOKUP[16] == 0xffffffffffff874);
    }
    if case == 17 {
        assert(EDGES_LOOKUP[17] == 0x099);
        assert(TRIANGLES_LOOKUP[17] == 0xfffffffff437034);
    }
    if case == 18 {
        assert(EDGES_LOOKUP[18] == 0x393);
        assert(TRIANGLES_LOOKUP[18] == 0xfffffffff748910);
    }
    if case == 19 {
        assert(EDGES_LOOKUP[19] == 0x29a);
        assert(TRIANGLES_LOOKUP[19] == 0xffffff137174914);
    }
    if case == 20 {
        assert(EDGES_LOOKUP[20] == 0x596);
        assert(TRIANGLES_LOOKUP[20] == 0xfffffffff748a21);
    }
    if case == 21 {
        assert(EDGES_LOOKUP[21] == 0x49f);
        assert(TRIANGLES_LOOKUP[21] == 0xffffffa21403743);
    }
    if case == 22 {
        assert(EDGES_LOOKUP[22] == 0x795);
        assert(TRIANGLES_LOOKUP[22] == 0xffffff748209a29);
    }
    if case == 23 {
        assert(EDGES_LOOKUP[23] == 0x69c);
        assert(TRIANGLES_LOOKUP[23] == 0xfff4973727929a2);
    }
    if case == 24 {
        assert(EDGES_LOOKUP[24] == 0x99c);
        assert(TRIANGLES_LOOKUP[24] == 0xfffffffff2b3748);
    }
    if case == 25 {
        assert(EDGES_LOOKUP[25] == 0x895);
        assert(TRIANGLES_LOOKUP[25] == 0xffffff40242b74b);
    }
    if case == 26 {
        assert(EDGES_LOOKUP[26] == 0xb9f);
        assert(TRIANGLES_LOOKUP[26] == 0xffffffb32748109);
    }
    if case == 27 {
        assert(EDGES_LOOKUP[27] == 0xa96);
        assert(TRIANGLES_LOOKUP[27] == 0xfff1292b9b49b74);
    }
    if case == 28 {
        assert(EDGES_LOOKUP[28] == 0xd9a);
        assert(TRIANGLES_LOOKUP[28] == 0xffffff487ab31a3);
    }
    if case == 29 {
        assert(EDGES_LOOKUP[29] == 0xc93);
        assert(TRIANGLES_LOOKUP[29] == 0xfff4b7401b41ab1);
    }
    if case == 30 {
        assert(EDGES_LOOKUP[30] == 0xf99);
        assert(TRIANGLES_LOOKUP[30] == 0xfff30bab9b09874);
    }
    if case == 31 {
        assert(EDGES_LOOKUP[31] == 0xe90);
        assert(TRIANGLES_LOOKUP[31] == 0xffffffab99b4b74);
    }
}

proof fn lemma_cases_32_to_47(case: int, k: int)
    requires
        32 <= case <= 47,
        0 <= k < 15,
    ensures
        k < 12 ==> edge_entry_sound(case, k),
        triangle_entry_sound(case, k),
{
    if case == 32 {
        assert(EDGES_LOOKUP[32] == 0x230);
        assert(TRIANGLES_LOOKUP[32] == 0xffffffffffff459);
    }
    if case == 33 {
        assert(EDGES_LOOKUP[33] == 0x339);
        assert(TRIANGLES_LOOKUP[33] == 0xfffffffff380459);
    }
    if case == 34 {
        assert(EDGES_LOOKUP[34] == 0x033);
        assert(TRIANGLES_LOOKUP[34] == 0xfffffffff051450);
    }
    if case == 35 {
        assert(EDGES_LOOKUP[35] == 0x13a);
        assert(TRIANGLES_LOOKUP[35] == 0xffffff513538458);
    }
    if case == 36 {
        assert(EDGES_LOOKUP[36] == 0x636);
        assert(TRIANGLES_LOOKUP[36] == 0xfffffffff459a21);
    }
    if case == 37 {
        assert(EDGES_LOOKUP[37] == 0x73f);
        assert(TRIANGLES_LOOKUP[37] == 0xffffff594a21803);
    }
    if case == 38 {
        assert(EDGES_LOOKUP[38] == 0x435);
        assert(TRIANGLES_LOOKUP[38] == 0xffffff204245a25);
    }
    if case == 39 {
        assert(EDGES_LOOKUP[39] == 0x53c);
        assert(TRIANGLES_LOOKUP[39] == 0xfff8434535235a2);
    }
    if case == 40 {
        assert(EDGES_LOOKUP[40] == 0xa3c);
        assert(TRIANGLES_LOOKUP[40] == 0xfffffffffb32459);
    }
    if case == 41 {
        assert(EDGES_LOOKUP[41] == 0xb35);
        assert(TRIANGLES_LOOKUP[41] == 0xffffff594b802b0);
    }
    if case == 42 {
        assert(EDGES_LOOKUP[42] == 0x83f);
        assert(TRIANGLES_LOOKUP[42] == 0xffffffb32510450);
    }
    if case == 43 {
        assert(EDGES_LOOKUP[43] == 0x936);
        assert(TRIANGLES_LOOKUP[43] == 0xfff584b82852512);
    }
    if case == 44 {
        assert(EDGES_LOOKUP[44] == 0xe3a);
        assert(TRIANGLES_LOOKUP[44] == 0xffffff45931ab3a);
    }
    if case == 45 {
        assert(EDGES_LOOKUP[45] == 0xf33);
        assert(TRIANGLES_LOOKUP[45] == 0xfffab81a8180594);
    }
    if case == 46 {
        assert(EDGES_LOOKUP[46] == 0xc39);
        assert(TRIANGLES_LOOKUP[46] == 0xfff30bab5b05045);
    }
    if case == 47 {
        assert(EDGES_LOOKUP[47] == 0xd30);
        assert(TRIANGLES_LOOKUP[47] == 0xffffffb8aa85845);
    }
}

proof fn lemma_cases_48_to_63(case: int, k: int)
    requires
        48 <= case <= 63,
        0 <= k < 15,
    ensures
        k < 12 ==> edge_entry_sound(case, k),
        triangle_entry_sound(case, k),
{
    if case == 48 {
        assert(EDGES_LOOKUP[48] == 0x3a0);
        assert(TRIANGLES_LOOKUP[48] == 0xfffffffff975879);
    }
    if case == 49 {
        assert(EDGES_LOOKUP[49] == 0x2a9);
        assert(TRIANGLES_LOOKUP[49] == 0xffffff375359039);
    }
    if case == 50 {
        assert(EDGES_LOOKUP[50] == 0x1a3);
        assert(TRIANGLES_LOOKUP[50] == 0xffffff751710870);
    }
    if case == 51 {
        assert(EDGES_LOOKUP[51] == 0x0aa);
        assert(TRIANGLES_LOOKUP[51] == 0xfffffffff753351);
    }
    if case == 52 {
        assert(EDGES_LOOKUP[52] == 0x7a6);
        assert(TRIANGLES_LOOKUP[52] == 0xffffff21a759879);
    }
    if case == 53 {
        assert(EDGES_LOOKUP[53] == 0x6af);
        assert(TRIANGLES_LOOKUP[53] == 0xfff37503505921a);
    }
    if case == 54 {
        assert(EDGES_LOOKUP[54] == 0x5a5);
        assert(TRIANGLES_LOOKUP[54] == 0xfff25a758528208);
    }
    if case == 55 {
        assert(EDGES_LOOKUP[55] == 0x4ac);
        assert(TRIANGLES_LOOKUP[55] == 0xffffff7533525a2);
    }
    if case == 56 {
        assert(EDGES_LOOKUP[56] == 0xbac);
        assert(TRIANGLES_LOOKUP[56] == 0xffffff2b3987597);
    }
    if case == 57 {
        assert(EDGES_LOOKUP[57] == 0xaa5);
        assert(TRIANGLES_LOOKUP[57] == 0xfffb72029279759);
    }
    if case == 58 {
        assert(EDGES_LOOKUP[58] == 0x9af);
        assert(TRIANGLES_LOOKUP[58] == 0xfff751871810b32);
    }
    if case == 59 {
        assert(EDGES_LOOKUP[59] == 0x8a6);
        assert(TRIANGLES_LOOKUP[59] == 0xffffff51771b12b);
    }
    if case == 60 {
        assert(EDGES_LOOKUP[60] == 0xfaa);
        assert(TRIANGLES_LOOKUP[60] == 0xfffb3a31a758859);
    }
    if case == 61 {
        assert(EDGES_LOOKUP[61] == 0xea3);
        assert(TRIANGLES_LOOKUP[61] == 0x0aba010b7905075);
    }
    if case == 62 {
        assert(EDGES_LOOKUP[62] == 0xda9);
        assert(TRIANGLES_LOOKUP[62] == 0x07570805a30b0ab);
    }
    if case == 63 {
        assert(EDGES_LOOKUP[63] == 0xca0);
        assert(TRIANGLES_LOOKUP[63] == 0xfffffffff5b75ab);
    }
}

proof fn lemma_cases_64_to_79(case: int, k: int)
    requires
        64 <= case <= 79,
        0 <= k < 15,
    ensures
        k < 12 ==> edge_entry_sound(case, k),
        triangle_entry_sound(case, k),
{
    if case == 64 {
        assert(EDGES_LOOKUP[64] == 0x460);
        assert(TRIANGLES_LOOKUP[64] == 0xffffffffffff56a);
    }
    if case == 65 {
        assert(EDGES_LOOKUP[65] == 0x569);
        assert(TRIANGLES_LOOKUP[65] == 0xfffffffff6a5380);
    }
    if case == 66 {
        assert(EDGES_LOOKUP[66] == 0x663);
        assert(TRIANGLES_LOOKUP[66] == 0xfffffffff6a5109);
    }
    if case == 67 {
        assert(EDGES_LOOKUP[67] == 0x76a);
        assert(TRIANGLES_LOOKUP[67] == 0xffffff6a5891381);
    }
    if case == 68 {
        assert(EDGES_LOOKUP[68] == 0x066);
        assert(TRIANGLES_LOOKUP[68] == 0xfffffffff162561);
    }
    if case == 69 {
        assert(EDGES_LOOKUP[69] == 0x16f);
        assert(TRIANGLES_LOOKUP[69] == 0xffffff803621561);
    }
    if case == 70 {
        assert(EDGES_LOOKUP[70] == 0x265);
        assert(TRIANGLES_LOOKUP[70] == 0xffffff620609569);
    }
    if case == 71 {
        assert(EDGES_LOOKUP[71] == 0x36c);
        assert(TRIANGLES_LOOKUP[71] == 0xfff823625285895);
    }
    if case == 72 {
        assert(EDGES_LOOKUP[72] == 0xc6c);
        assert(TRIANGLES_LOOKUP[72] == 0xfffffffff56ab32);
    }
    if case == 73 {
        assert(EDGES_LOOKUP[73] == 0xd65);
        assert(TRIANGLES_LOOKUP[73] == 0xffffff56a02b80b);
    }
    if case == 74 {
        assert(EDGES_LOOKUP[74] == 0xe6f);
        assert(TRIANGLES_LOOKUP[74] == 0xffffff6a5b32910);
    }
    if case == 75 {
        assert(EDGES_LOOKUP[75] == 0xf66);
        assert(TRIANGLES_LOOKUP[75] == 0xfffb892b92916a5);
    }
    if case == 76 {
        assert(EDGES_LOOKUP[76] == 0x86a);
        assert(TRIANGLES_LOOKUP[76] == 0xffffff315356b36);
    }
    if case == 77 {
        assert(EDGES_LOOKUP[77] == 0x963);
        assert(TRIANGLES_LOOKUP[77] == 0xfff6b51505b0b80);
    }
    if case == 78 {
        assert(EDGES_LOOKUP[78] == 0xa69);
        assert(TRIANGLES_LOOKUP[78] == 0xfff9505606306b3);
    }
    if case == 79 {
        assert(EDGES_LOOKUP[79] == 0xb60);
        assert(TRIANGLES_LOOKUP[79] == 0xffffff89bb96956);
    }
}

proof fn lemma_cases_80_to_95(case: int, k: int)
    requires
        80 <= case <= 95,
        0 <= k < 15,
    ensures
        k < 12 ==> edge_entry_sound(case, k),
        triangle_entry_sound(case, k),
{
    if case == 80 {
        assert(EDGES_LOOKUP[80] == 0x5f0);
        assert(TRIANGLES_LOOKUP[80] == 0xfffffffff8746a5);
    }
    if case == 81 {
        assert(EDGES_LOOKUP[81] == 0x4f9);
        assert(TRIANGLES_LOOKUP[81] == 0xffffffa56374034);
    }
    if case == 82 {
        assert(EDGES_LOOKUP[82] == 0x7f3);
        assert(TRIANGLES_LOOKUP[82] == 0xffffff7486a5091);
    }
    if case == 83 {
        assert(EDGES_LOOKUP[83] == 0x6fa);
        assert(TRIANGLES_LOOKUP[83] == 0xfff49737179156a);
    }
    if case == 84 {
        assert(EDGES_LOOKUP[84] == 0x1f6);
        assert(TRIANGLES_LOOKUP[84] == 0xffffff874156216);
    }
    if case == 85 {
        assert(EDGES_LOOKUP[85] == 0x0ff);
        assert(TRIANGLES_LOOKUP[85] == 0xfff743403625521);
    }
    if case == 86 {
        assert(EDGES_LOOKUP[86] == 0x3f5);
        assert(TRIANGLES_LOOKUP[86] == 0xfff620560509748);
    }
    if case == 87 {
        assert(EDGES_LOOKUP[87] == 0x2fc);
        assert(TRIANGLES_LOOKUP[87] == 0x962695923497937);
    }
    if case == 88 {
        assert(EDGES_LOOKUP[88] == 0xdfc);
        assert(TRIANGLES_LOOKUP[88] == 0xffffff56a4872b3);
    }
    if case == 89 {
        assert(EDGES_LOOKUP[89] == 0xcf5);
        assert(TRIANGLES_LOOKUP[89] == 0xfffb720242746a5);
    }
    if case == 90 {
        assert(EDGES_LOOKUP[90] == 0xfff);
        assert(TRIANGLES_LOOKUP[90] == 0xfff6a5b32874910);
    }
    if case == 91 {
        assert(EDGES_LOOKUP[91] == 0xef6);
        assert(TRIANGLES_LOOKUP[91] == 0x6a54b7b492b9129);
    }
    if case == 92 {
        assert(EDGES_LOOKUP[92] == 0x9fa);
        assert(TRIANGLES_LOOKUP[92] == 0xfff6b51535b3748);
    }
    if case == 93 {
        assert(EDGES_LOOKUP[93] == 0x8f3);
        assert(TRIANGLES_LOOKUP[93] == 0xb404b7b016b5b15);
    }
    if case == 94 {
        assert(EDGES_LOOKUP[94] == 0xbf9);
        assert(TRIANGLES_LOOKUP[94] == 0x74836b630560950);
    }
    if case == 95 {
        assert(EDGES_LOOKUP[95] == 0xaf0);
        assert(TRIANGLES_LOOKUP[95] == 0xfff9b7974b96956);
    }
}

proof fn lemma_cases_96_to_111(case: int, k: int)
    requires
        96 <= case <= 111,
        0 <= k < 15,
    ensures
        k < 12 ==> edge_entry_sound(case, k),
        triangle_entry_sound(case, k),
{
    if case == 96 {
        assert(EDGES_LOOKUP[96] == 0x650);
        assert(TRIANGLES_LOOKUP[96] == 0xfffffffffa4694a);
    }
    if case == 97 {
        assert(EDGES_LOOKUP[97] == 0x759);
        assert(TRIANGLES_LOOKUP[97] == 0xffffff380a946a4);
    }
    if case == 98 {
        assert(EDGES_LOOKUP[98] == 0x453);
        assert(TRIANGLES_LOOKUP[98] == 0xffffff04606a10a);
    }
    if case == 99 {
        assert(EDGES_LOOKUP[99] == 0x55a);
        assert(TRIANGLES_LOOKUP[99] == 0xfffa16468618138);
    }
    if case == 100 {
        assert(EDGES_LOOKUP[100] == 0x256);
        assert(TRIANGLES_LOOKUP[100] == 0xffffff462421941);
    }
    if case == 101 {
        assert(EDGES_LOOKUP[101] == 0x35f);
        assert(TRIANGLES_LOOKUP[101] == 0xfff462942921803);
    }
    if case == 102 {
        assert(EDGES_LOOKUP[102] == 0x055);
        assert(TRIANGLES_LOOKUP[102] == 0xfffffffff624420);
    }
    if case == 103 {
        assert(EDGES_LOOKUP[103] == 0x15c);
        assert(TRIANGLES_LOOKUP[103] == 0xffffff624428238);
    }
    if case == 104 {
        assert(EDGES_LOOKUP[104] == 0xe5c);
        assert(TRIANGLES_LOOKUP[104] == 0xffffff32b46a94a);
    }
    if case == 105 {
        assert(EDGES_LOOKUP[105] == 0xf55);
        assert(TRIANGLES_LOOKUP[105] == 0xfff6a4a94b82280);
    }
    if case == 106 {
        assert(EDGES_LOOKUP[106] == 0xc5f);
        assert(TRIANGLES_LOOKUP[106] == 0xfffa164606102b3);
    }
    if case == 107 {
        assert(EDGES_LOOKUP[107] == 0xd56);
        assert(TRIANGLES_LOOKUP[107] == 0x1b8b12184a16146);
    }
    if case == 108 {
        assert(EDGES_LOOKUP[108] == 0xa5a);
        assert(TRIANGLES_LOOKUP[108] == 0xfff36b319639469);
    }
    if case == 109 {
        assert(EDGES_LOOKUP[109] == 0xb53);
        assert(TRIANGLES_LOOKUP[109] == 0x14641916b0181b8);
    }
    if case == 110 {
        assert(EDGES_LOOKUP[110] == 0x859);
        assert(TRIANGLES_LOOKUP[110] == 0xffffff4600636b3);
    }
    if case == 111 {
        assert(EDGES_LOOKUP[111] == 0x950);
        assert(TRIANGLES_LOOKUP[111] == 0xfffffffff86b846);
    }
}

proof fn lemma_cases_112_to_127(case: int, k: int)
    requires
        112 <= case <= 127,
        0 <= k < 15,
    ensures
        k < 12 ==> edge_entry_sound(case, k),
        triangle_entry_sound(case, k),
{
    if case == 112 {
        assert(EDGES_LOOKUP[112] == 0x7c0);
        assert(TRIANGLES_LOOKUP[112] == 0xffffffa98a876a7);
    }
    if case == 113 {
        assert(EDGES_LOOKUP[113] == 0x6c9);
        assert(TRIANGLES_LOOKUP[113] == 0xfffa76a907a0370);
    }
    if case == 114 {
        assert(EDGES_LOOKUP[114] == 0x5c3);
        assert(TRIANGLES_LOOKUP[114] == 0xfff0818717a176a);
    }
    if case == 115 {
        assert(EDGES_LOOKUP[115] == 0x4ca);
        assert(TRIANGLES_LOOKUP[115] == 0xffffff37117a76a);
    }
    if case == 116 {
        assert(EDGES_LOOKUP[116] == 0x3c6);
        assert(TRIANGLES_LOOKUP[116] == 0xfff768981861621);
    }
    if case == 117 {
        assert(EDGES_LOOKUP[117] == 0x2cf);
        assert(TRIANGLES_LOOKUP[117] == 0x937390976192962);
    }
    if case == 118 {
        assert(EDGES_LOOKUP[118] == 0x1c5);
        assert(TRIANGLES_LOOKUP[118] == 0xffffff206607087);
    }
    if case == 119 {
        assert(EDGES_LOOKUP[119] == 0x0cc);
        assert(TRIANGLES_LOOKUP[119] == 0xfffffffff276237);
    }
    if case == 120 {
        assert(EDGES_LOOKUP[120] == 0xfcc);
        assert(TRIANGLES_LOOKUP[120] == 0xfff76898a86ab32);
    }
    if case == 121 {
        assert(EDGES_LOOKUP[121] == 0xec5);
        assert(TRIANGLES_LOOKUP[121] == 0x7a9a76790b72702);
    }
    if case == 122 {
        assert(EDGES_LOOKUP[122] == 0xdcf);
        assert(TRIANGLES_LOOKUP[122] == 0xb32a767a1871081);
    }
    if case == 123 {
        assert(EDGES_LOOKUP[123] == 0xcc6);
        assert(TRIANGLES_LOOKUP[123] == 0xfff17616a71b12b);
    }
    if case == 124 {
        assert(EDGES_LOOKUP[124] == 0xbca);
        assert(TRIANGLES_LOOKUP[124] == 0x63136b619768698);
    }
    if case == 125 {
        assert(EDGES_LOOKUP[125] == 0xac3);
        assert(TRIANGLES_LOOKUP[125] == 0xfffffffff76b190);
    }
    if case == 126 {
        assert(EDGES_LOOKUP[126] == 0x9c9);
        assert(TRIANGLES_LOOKUP[126] == 0xfff06b0b3607087);
    }
    if case == 127 {
        assert(EDGES_LOOKUP[127] == 0x8c0);
        assert(TRIANGLES_LOOKUP[127] == 0xffffffffffff6b7);
    }
}

proof fn lemma_cases_128_to_143(case: int, k: int)
    requires
        128 <= case <= 143,
        0 <= k < 15,
    ensures
        k < 12 ==> edge_entry_sound(case, k),
        triangle_entry_sound(case, k),
{
    if case == 128 {
        assert(EDGES_LOOKUP[128] == 0x8c0);
        assert(TRIANGLES_LOOKUP[128] == 0xffffffffffffb67);
    }
    if case == 129 {
        assert(EDGES_LOOKUP[129] == 0x9c9);
        assert(TRIANGLES_LOOKUP[129] == 0xfffffffff67b803);
    }
    if case == 130 {
        assert(EDGES_LOOKUP[130] == 0xac3);
        assert(TRIANGLES_LOOKUP[130] == 0xfffffffff67b910);
    }
    if case == 131 {
        assert(EDGES_LOOKUP[131] == 0xbca);
        assert(TRIANGLES_LOOKUP[131] == 0xffffff67b138918);
    }
    if case == 132 {
        assert(EDGES_LOOKUP[132] == 0xcc6);
        assert(TRIANGLES_LOOKUP[132] == 0xfffffffff7b621a);
    }
    if case == 133 {
        assert(EDGES_LOOKUP[133] == 0xdcf);
        assert(TRIANGLES_LOOKUP[133] == 0xffffff7b6803a21);
    }
    if case == 134 {
        assert(EDGES_LOOKUP[134] == 0xec5);
        assert(TRIANGLES_LOOKUP[134] == 0xffffff7b69a2092);
    }
    if case == 135 {
        assert(EDGES_LOOKUP[135] == 0xfcc);
        assert(TRIANGLES_LOOKUP[135] == 0xfff89a38a3a27b6);
    }
    if case == 136 {
        assert(EDGES_LOOKUP[136] == 0x0cc);
        assert(TRIANGLES_LOOKUP[136] == 0xfffffffff726327);
    }
    if case == 137 {
        assert(EDGES_LOOKUP[137] == 0x1c5);
        assert(TRIANGLES_LOOKUP[137] == 0xffffff026067807);
    }
    if case == 138 {
        assert(EDGES_LOOKUP[138] == 0x2cf);
        assert(TRIANGLES_LOOKUP[138] == 0xffffff910732672);
    }
    if case == 139 {
        assert(EDGES_LOOKUP[139] == 0x3c6);
        assert(TRIANGLES_LOOKUP[139] == 0xfff678891681261);
    }
    if case == 140 {
        assert(EDGES_LOOKUP[140] == 0x4ca);
        assert(TRIANGLES_LOOKUP[140] == 0xffffff73171a67a);
    }
    if case == 141 {
        assert(EDGES_LOOKUP[141] == 0x5c3);
        assert(TRIANGLES_LOOKUP[141] == 0xfff801781a7167a);
    }
    if case == 142 {
        assert(EDGES_LOOKUP[142] == 0x6c9);
        assert(TRIANGLES_LOOKUP[142] == 0xfff7a69a0a70730);
    }
    if case == 143 {
        assert(EDGES_LOOKUP[143] == 0x7c0);
        assert(TRIANGLES_LOOKUP[143] == 0xffffff9a88a7a67);
    }
}

proof fn lemma_cases_144_to_159(case: int, k: int)
    requires
        144 <= case <= 159,
        0 <= k < 15,
    ensures
        k < 12 ==> edge_entry_sound(case, k),
        triangle_entry_sound(case, k),
{
    if case == 144 {
        assert(EDGES_LOOKUP[144] == 0x950);
        assert(TRIANGLES_LOOKUP[144] == 0xfffffffff68b486);
    }
    if case == 145 {
        assert(EDGES_LOOKUP[145] == 0x859);
        assert(TRIANGLES_LOOKUP[145] == 0xffffff640603b63);
    }
    if case == 146 {
        assert(EDGES_LOOKUP[146] == 0xb53);
        assert(TRIANGLES_LOOKUP[146] == 0xffffff109648b68);
    }
    if case == 147 {
        assert(EDGES_LOOKUP[147] == 0xa5a);
        assert(TRIANGLES_LOOKUP[147] == 0xfff63b139369649);
    }
    if case == 148 {
        assert(EDGES_LOOKUP[148] == 0xd56);
        assert(TRIANGLES_LOOKUP[148] == 0xffffff1a28b6486);
    }
    if case == 149 {
        assert(EDGES_LOOKUP[149] == 0xc5f);
        assert(TRIANGLES_LOOKUP[149] == 0xfff640b60b03a21);
    }
    if case == 150 {
        assert(EDGES_LOOKUP[150] == 0xf55);
        assert(TRIANGLES_LOOKUP[150] == 0xfff9a2920b648b4);
    }
    if case == 151 {
        assert(EDGES_LOOKUP[151] == 0xe5c);
        assert(TRIANGLES_LOOKUP[151] == 0x36463b34923a39a);
    }
    if case == 152 {
        assert(EDGES_LOOKUP[152] == 0x15c);
        assert(TRIANGLES_LOOKUP[152] == 0xffffff264248328);
    }
    if case == 153 {
        assert(EDGES_LOOKUP[153] == 0x055);
        assert(TRIANGLES_LOOKUP[153] == 0xfffffffff264240);
    }
    if case == 154 {
        assert(EDGES_LOOKUP[154] == 0x35f);
        assert(TRIANGLES_LOOKUP[154] == 0xfff834642432091);
    }
    if case == 155 {
        assert(EDGES_LOOKUP[155] == 0x256);
        assert(TRIANGLES_LOOKUP[155] == 0xffffff642241491);
    }
    if case == 156 {
        assert(EDGES_LOOKUP[156] == 0x55a);
        assert(TRIANGLES_LOOKUP[156] == 0xfff1a6648168318);
    }
    if case == 157 {
        assert(EDGES_LOOKUP[157] == 0x453);
        assert(TRIANGLES_LOOKUP[157] == 0xffffff40660a01a);
    }
    if case == 158 {
        assert(EDGES_LOOKUP[158] == 0x759);
        assert(TRIANGLES_LOOKUP[158] == 0x39a9303a6834364);
    }
    if case == 159 {
        assert(EDGES_LOOKUP[159] == 0x650);
        assert(TRIANGLES_LOOKUP[159] == 0xfffffffff4a649a);
    }
}

proof fn lemma_cases_160_to_175(case: int, k: int)
    requires
        160 <= case <= 175,
        0 <= k < 15,
    ensures
        k < 12 ==> edge_entry_sound(case, k),
        triangle_entry_sound(case, k),
{
    if case == 160 {
        assert(EDGES_LOOKUP[160] == 0xaf0);
        assert(TRIANGLES_LOOKUP[160] == 0xfffffffffb67594);
    }
    if case == 161 {
        assert(EDGES_LOOKUP[161] == 0xbf9);
        assert(TRIANGLES_LOOKUP[161] == 0xffffff67b594380);
    }
    if case == 162 {
        assert(EDGES_LOOKUP[162] == 0x8f3);
        assert(TRIANGLES_LOOKUP[162] == 0xffffffb67045105);
    }
    if case == 163 {
        assert(EDGES_LOOKUP[163] == 0x9fa);
        assert(TRIANGLES_LOOKUP[163] == 0xfff51345343867b);
    }
    if case == 164 {
        assert(EDGES_LOOKUP[164] == 0xef6);
        assert(TRIANGLES_LOOKUP[164] == 0xffffffb6721a459);
    }
    if case == 165 {
        assert(EDGES_LOOKUP[165] == 0xfff);
        assert(TRIANGLES_LOOKUP[165] == 0xfff594380a217b6);
    }
    if case == 166 {
        assert(EDGES_LOOKUP[166] == 0xcf5);
        assert(TRIANGLES_LOOKUP[166] == 0xfff204a24a45b67);
    }
    if case == 167 {
        assert(EDGES_LOOKUP[167] == 0xdfc);
        assert(TRIANGLES_LOOKUP[167] == 0x67b25a523453843);
    }
    if case == 168 {
        assert(EDGES_LOOKUP[168] == 0x2fc);
        assert(TRIANGLES_LOOKUP[168] == 0xffffff945267327);
    }
    if case == 169 {
        assert(EDGES_LOOKUP[169] == 0x3f5);
        assert(TRIANGLES_LOOKUP[169] == 0xfff786260680459);
    }
    if case == 170 {
        assert(EDGES_LOOKUP[170] == 0x0ff);
        assert(TRIANGLES_LOOKUP[170] == 0xfff045051673263);
    }
    if case == 171 {
        assert(EDGES_LOOKUP[171] == 0x1f6);
        assert(TRIANGLES_LOOKUP[171] == 0x851584812786826);
    }
    if case == 172 {
        assert(EDGES_LOOKUP[172] == 0x6fa);
        assert(TRIANGLES_LOOKUP[172] == 0xfff73167161a459);
    }
    if case == 173 {
        assert(EDGES_LOOKUP[173] == 0x7f3);
        assert(TRIANGLES_LOOKUP[173] == 0x459078701671a61);
    }
    if case == 174 {
        assert(EDGES_LOOKUP[174] == 0x4f9);
        assert(TRIANGLES_LOOKUP[174] == 0xa737a6a305a4a04);
    }
    if case == 175 {
        assert(EDGES_LOOKUP[175] == 0x5f0);
        assert(TRIANGLES_LOOKUP[175] == 0xfffa84a458a7a67);
    }
}

proof fn lemma_cases_176_to_191(case: int, k: int)
    requires
        176 <= case <= 191,
        0 <= k < 15,
    ensures
        k < 12 ==> edge_entry_sound(case, k),
        triangle_entry_sound(case, k),
{
    if case == 176 {
        assert(EDGES_LOOKUP[176] == 0xb60);
        assert(TRIANGLES_LOOKUP[176] == 0xffffff98b9b6596);
    }
    if case == 177 {
        assert(EDGES_LOOKUP[177] == 0xa69);
        assert(TRIANGLES_LOOKUP[177] == 0xfff590650360b63);
    }
    if case == 178 {
        assert(EDGES_LOOKUP[178] == 0x963);
        assert(TRIANGLES_LOOKUP[178] == 0xfffb65510b508b0);
    }
    if case == 179 {
        assert(EDGES_LOOKUP[179] == 0x86a);
        assert(TRIANGLES_LOOKUP[179] == 0xffffff1355363b6);
    }
    if case == 180 {
        assert(EDGES_LOOKUP[180] == 0xf66);
        assert(TRIANGLES_LOOKUP[180] == 0xfff65b8b9b59a21);
    }
    if case == 181 {
        assert(EDGES_LOOKUP[181] == 0xe6f);
        assert(TRIANGLES_LOOKUP[181] == 0xa21965690b603b0);
    }
    if case == 182 {
        assert(EDGES_LOOKUP[182] == 0xd65);
        assert(TRIANGLES_LOOKUP[182] == 0x52025a50865b58b);
    }
    if case == 183 {
        assert(EDGES_LOOKUP[183] == 0xc6c);
        assert(TRIANGLES_LOOKUP[183] == 0xfff35a3a25363b6);
    }
    if case == 184 {
        assert(EDGES_LOOKUP[184] == 0x36c);
        assert(TRIANGLES_LOOKUP[184] == 0xfff283265825985);
    }
    if case == 185 {
        assert(EDGES_LOOKUP[185] == 0x265);
        assert(TRIANGLES_LOOKUP[185] == 0xffffff260069659);
    }
    if case == 186 {
        assert(EDGES_LOOKUP[186] == 0x16f);
        assert(TRIANGLES_LOOKUP[186] == 0x826283865081851);
    }
    if case == 187 {
        assert(EDGES_LOOKUP[187] == 0x066);
        assert(TRIANGLES_LOOKUP[187] == 0xfffffffff612651);
    }
    if case == 188 {
        assert(EDGES_LOOKUP[188] == 0x76a);
        assert(TRIANGLES_LOOKUP[188] == 0x698965683a61631);
    }
    if case == 189 {
        assert(EDGES_LOOKUP[189] == 0x663);
        assert(TRIANGLES_LOOKUP[189] == 0xfff06505960a01a);
    }
    if case == 190 {
        assert(EDGES_LOOKUP[190] == 0x569);
        assert(TRIANGLES_LOOKUP[190] == 0xfffffffffa65830);
    }
    if case == 191 {
        assert(EDGES_LOOKUP[191] == 0x460);
        assert(TRIANGLES_LOOKUP[191] == 0xffffffffffff65a);
    }
}

proof fn lemma_cases_192_to_207(case: int, k: int)
    requires
        192 <= case <= 207,
        0 <= k < 15,
    ensures
        k < 12 ==> edge_entry_sound(case, k),
        triangle_entry_sound(case, k),
{
    if case == 192 {
        assert(EDGES_LOOKUP[192] == 0xca0);
        assert(TRIANGLES_LOOKUP[192] == 0xfffffffffb57a5b);
    }
    if case == 193 {
        assert(EDGES_LOOKUP[193] == 0xda9);
        assert(TRIANGLES_LOOKUP[193] == 0xffffff03857ba5b);
    }
    if case == 194 {
        assert(EDGES_LOOKUP[194] == 0xea3);
        assert(TRIANGLES_LOOKUP[194] == 0xffffff091ba57b5);
    }
    if case == 195 {
        assert(EDGES_LOOKUP[195] == 0xfaa);
        assert(TRIANGLES_LOOKUP[195] == 0xfff1381897ba57a);
    }
    if case == 196 {
        assert(EDGES_LOOKUP[196] == 0x8a6);
        assert(TRIANGLES_LOOKUP[196] == 0xffffff15717b21b);
    }
    if case == 197 {
        assert(EDGES_LOOKUP[197] == 0x9af);
        assert(TRIANGLES_LOOKUP[197] == 0xfffb27571721380);
    }
    if case == 198 {
        assert(EDGES_LOOKUP[198] == 0xaa5);
        assert(TRIANGLES_LOOKUP[198] == 0xfff7b2209729579);
    }
    if case == 199 {
        assert(EDGES_LOOKUP[199] == 0xbac);
        assert(TRIANGLES_LOOKUP[199] == 0x289823295b27257);
    }
    if case == 200 {
        assert(EDGES_LOOKUP[200] == 0x4ac);
        assert(TRIANGLES_LOOKUP[200] == 0xffffff573532a52);
    }
    if case == 201 {
        assert(EDGES_LOOKUP[201] == 0x5a5);
        assert(TRIANGLES_LOOKUP[201] == 0xfff52a578258028);
    }
    if case == 202 {
        assert(EDGES_LOOKUP[202] == 0x6af);
        assert(TRIANGLES_LOOKUP[202] == 0xfff2a37353a5109);
    }
    if case == 203 {
        assert(EDGES_LOOKUP[203] == 0x7a6);
        assert(TRIANGLES_LOOKUP[203] == 0x25752a278129289);
    }
    if case == 204 {
        assert(EDGES_LOOKUP[204] == 0x0aa);
        assert(TRIANGLES_LOOKUP[204] == 0xfffffffff573531);
    }
    if case == 205 {
        assert(EDGES_LOOKUP[205] == 0x1a3);
        assert(TRIANGLES_LOOKUP[205] == 0xffffff571170780);
    }
    if case == 206 {
        assert(EDGES_LOOKUP[206] == 0x2a9);
        assert(TRIANGLES_LOOKUP[206] == 0xffffff735539309);
    }
    if case == 207 {
        assert(EDGES_LOOKUP[207] == 0x3a0);
        assert(TRIANGLES_LOOKUP[207] == 0xfffffffff795789);
    }
}

proof fn lemma_cases_208_to_223(case: int, k: int)
    requires
        208 <= case <= 223,
        0 <= k < 15,
    ensures
        k < 12 ==> edge_entry_sound(case, k),
        triangle_entry_sound(case, k),
{
    if case == 208 {
        assert(EDGES_LOOKUP[208] == 0xd30);
        assert(TRIANGLES_LOOKUP[208] == 0xffffff8ba8a5485);
    }
    if case == 209 {
        assert(EDGES_LOOKUP[209] == 0xc39);
        assert(TRIANGLES_LOOKUP[209] == 0xfff03bba50b5405);
    }
    if case == 210 {
        assert(EDGES_LOOKUP[210] == 0xf33);
        assert(TRIANGLES_LOOKUP[210] == 0xfff54aba8a48910);
    }
    if case == 211 {
        assert(EDGES_LOOKUP[211] == 0xe3a);
        assert(TRIANGLES_LOOKUP[211] == 0x41314943b54a4ba);
    }
    if case == 212 {
        assert(EDGES_LOOKUP[212] == 0x936);
        assert(TRIANGLES_LOOKUP[212] == 0xfff8548b2582152);
    }
    if case == 213 {
        assert(EDGES_LOOKUP[213] == 0x83f);
        assert(TRIANGLES_LOOKUP[213] == 0xb151b2b543b0b40);
    }
    if case == 214 {
        assert(EDGES_LOOKUP[214] == 0xb35);
        assert(TRIANGLES_LOOKUP[214] == 0x58b8545b2950520);
    }
    if case == 215 {
        assert(EDGES_LOOKUP[215] == 0xa3c);
        assert(TRIANGLES_LOOKUP[215] == 0xfffffffff3b2549);
    }
    if case == 216 {
        assert(EDGES_LOOKUP[216] == 0x53c);
        assert(TRIANGLES_LOOKUP[216] == 0xfff483543253a52);
    }
    if case == 217 {
        assert(EDGES_LOOKUP[217] == 0x435);
        assert(TRIANGLES_LOOKUP[217] == 0xffffff0244252a5);
    }
    if case == 218 {
        assert(EDGES_LOOKUP[218] == 0x73f);
        assert(TRIANGLES_LOOKUP[218] == 0x910854583a532a3);
    }
    if case == 219 {
        assert(EDGES_LOOKUP[219] == 0x636);
        assert(TRIANGLES_LOOKUP[219] == 0xfff2492914252a5);
    }
    if case == 220 {
        assert(EDGES_LOOKUP[220] == 0x13a);
        assert(TRIANGLES_LOOKUP[220] == 0xffffff153358548);
    }
    if case == 221 {
        assert(EDGES_LOOKUP[221] == 0x033);
        assert(TRIANGLES_LOOKUP[221] == 0xfffffffff501540);
    }
    if case == 222 {
        assert(EDGES_LOOKUP[222] == 0x339);
        assert(TRIANGLES_LOOKUP[222] == 0xfff530509358548);
    }
    if case == 223 {
        assert(EDGES_LOOKUP[223] == 0x230);
        assert(TRIANGLES_LOOKUP[223] == 0xffffffffffff549);
    }
}

proof fn lemma_cases_224_to_239(case: int, k: int)
    requires
        224 <= case <= 239,
        0 <= k < 15,
    ensures
        k < 12 ==> edge_entry_sound(case, k),
        triangle_entry_sound(case, k),
{
    if case == 224 {
        assert(EDGES_LOOKUP[224] == 0xe90);
        assert(TRIANGLES_LOOKUP[224] == 0xffffffba9b947b4);
    }
    if case == 225 {
        assert(EDGES_LOOKUP[225] == 0xf99);
        assert(TRIANGLES_LOOKUP[225] == 0xfffba97b9794380);
    }
    if case == 226 {
        assert(EDGES_LOOKUP[226] == 0xc93);
        assert(TRIANGLES_LOOKUP[226] == 0xfffb470414b1ba1);
    }
    if case == 227 {
        assert(EDGES_LOOKUP[227] == 0xd9a);
        assert(TRIANGLES_LOOKUP[227] == 0x4bab474a1843413);
    }
    if case == 228 {
        assert(EDGES_LOOKUP[228] == 0xa96);
        assert(TRIANGLES_LOOKUP[228] == 0xfff219b294b97b4);
    }
    if case == 229 {
        assert(EDGES_LOOKUP[229] == 0xb9f);
        assert(TRIANGLES_LOOKUP[229] == 0x3801b2b197b9479);
    }
    if case == 230 {
        assert(EDGES_LOOKUP[230] == 0x895);
        assert(TRIANGLES_LOOKUP[230] == 0xffffff04224b47b);
    }
    if case == 231 {
        assert(EDGES_LOOKUP[231] == 0x99c);
        assert(TRIANGLES_LOOKUP[231] == 0xfff42343824b47b);
    }
    if case == 232 {
        assert(EDGES_LOOKUP[232] == 0x69c);
        assert(TRIANGLES_LOOKUP[232] == 0xfff947732972a92);
    }
    if case == 233 {
        assert(EDGES_LOOKUP[233] == 0x795);
        assert(TRIANGLES_LOOKUP[233] == 0x70207872a4797a9);
    }
    if case == 234 {
        assert(EDGES_LOOKUP[234] == 0x49f);
        assert(TRIANGLES_LOOKUP[234] == 0xa040a1a472a3a73);
    }
    if case == 235 {
        assert(EDGES_LOOKUP[235] == 0x596);
        assert(TRIANGLES_LOOKUP[235] == 0xfffffffff4782a1);
    }
    if case == 236 {
        assert(EDGES_LOOKUP[236] == 0x29a);
        assert(TRIANGLES_LOOKUP[236] == 0xffffff317714194);
    }
    if case == 237 {
        assert(EDGES_LOOKUP[237] == 0x393);
        assert(TRIANGLES_LOOKUP[237] == 0xfff178180714194);
    }
    if case == 238 {
        assert(EDGES_LOOKUP[238] == 0x099);
        assert(TRIANGLES_LOOKUP[238] == 0xfffffffff347304);
    }
    if case == 239 {
        assert(EDGES_LOOKUP[239] == 0x190);
        assert(TRIANGLES_LOOKUP[239] == 0xffffffffffff784);
    }
}

proof fn lemma_cases_240_to_255(case: int, k: int)
    requires
        240 <= case <= 255,
        0 <= k < 15,
    ensures
        k < 12 ==> edge_entry_sound(case, k),
        triangle_entry_sound(case, k),
{
    if case == 240 {
        assert(EDGES_LOOKUP[240] == 0xf00);
        assert(TRIANGLES_LOOKUP[240] == 0xfffffffff8ba8a9);
    }
    if case == 241 {
        assert(EDGES_LOOKUP[241] == 0xe09);
        assert(TRIANGLES_LOOKUP[241] == 0xffffffa9bb93903);
    }
    if case == 242 {
        assert(EDGES_LOOKUP[242] == 0xd03);
        assert(TRIANGLES_LOOKUP[242] == 0xffffffba88a0a10);
    }
    if case == 243 {
        assert(EDGES_LOOKUP[243] == 0xc0a);
        assert(TRIANGLES_LOOKUP[243] == 0xfffffffffa3ba13);
    }
    if case == 244 {
        assert(EDGES_LOOKUP[244] == 0xb06);
        assert(TRIANGLES_LOOKUP[244] == 0xffffff8b99b1b21);
    }
    if case == 245 {
        assert(EDGES_LOOKUP[245] == 0xa0f);
        assert(TRIANGLES_LOOKUP[245] == 0xfff9b2921b93903);
    }
    if case == 246 {
        assert(EDGES_LOOKUP[246] == 0x905);
        assert(TRIANGLES_LOOKUP[246] == 0xfffffffffb08b20);
    }
    if case == 247 {
        assert(EDGES_LOOKUP[247] == 0x80c);
        assert(TRIANGLES_LOOKUP[247] == 0xffffffffffffb23);
    }
    if case == 248 {
        assert(EDGES_LOOKUP[248] == 0x70c);
        assert(TRIANGLES_LOOKUP[248] == 0xffffff98aa82832);
    }
    if case == 249 {
        assert(EDGES_LOOKUP[249] == 0x605);
        assert(TRIANGLES_LOOKUP[249] == 0xfffffffff2902a9);
    }
    if case == 250 {
        assert(EDGES_LOOKUP[250] == 0x50f);
        assert(TRIANGLES_LOOKUP[250] == 0xfff8a1810a82832);
    }
    if case == 251 {
        assert(EDGES_LOOKUP[251] == 0x406);
        assert(TRIANGLES_LOOKUP[251] == 0xffffffffffff2a1);
    }
    if case == 252 {
        assert(EDGES_LOOKUP[252] == 0x30a);
        assert(TRIANGLES_LOOKUP[252] == 0xfffffffff819831);
    }
    if case == 253 {
        assert(EDGES_LOOKUP[253] == 0x203);
        assert(TRIANGLES_LOOKUP[253] == 0xffffffffffff190);
    }
    if case == 254 {
        assert(EDGES_LOOKUP[254] == 0x109);
        assert(TRIANGLES_LOOKUP[254] == 0xffffffffffff830);
    }
    if case == 255 {
        assert(EDGES_LOOKUP[255] == 0x000);
        assert(TRIANGLES_LOOKUP[255] == 0xfffffffffffffff);
    }
}

/// The edge table lists an edge exactly in the cases in which one of its ends
/// is below the surface and the other is not.
pub proof fn lemma_edge_table(case: int, e: int)
    requires
        0 <= case < 256,
        0 <= e < 12,
    ensures
        edge_listed(case, e) == edge_crossed(case, e),
{
    lemma_tables(case, e);
}

/// Every entry of the triangle table is -1 or an edge that is crossed in the
/// entry's case; the first -1 of a row stands where a triangle would start,
/// and only -1 follows it.
pub proof fn lemma_triangle_table(case: int, j: int)
    requires
        0 <= case < 256,
        0 <= j < 15,
    ensures
        triangle_entry_sound(case, j),
{
    lemma_tables(case, j);
}

proof fn lemma_tables(case: int, k: int)
    requires
        0 <= case < 256,
        0 <= k < 15,
    ensures
        k < 12 ==> edge_entry_sound(case, k),
        triangle_entry_sound(case, k),
{
    if case <= 15 {
        lemma_cases_0_to_15(case, k);
    }     else if case <= 31 {
        lemma_cases_16_to_31(case, k);
    }     else if case <= 47 {
        lemma_cases_32_to_47(case, k);
    }     else if case <= 63 {
        lemma_cases_48_to_63(case, k);
    }     else if case <= 79 {
        lemma_cases_64_to_79(case, k);
    }     else if case <= 95 {
        lemma_cases_80_to_95(case, k);
    }     else if case <= 111 {
        lemma_cases_96_to_111(case, k);
    }     else if case <= 127 {
        lemma_cases_112_to_127(case, k);
    }     else if case <= 143 {
        lemma_cases_128_to_143(case, k);
    }     else if case <= 159 {
        lemma_cases_144_to_159(case, k);
    }     else if case <= 175 {
        lemma_cases_160_to_175(case, k);
    }     else if case <= 191 {
        lemma_cases_176_to_191(case, k);
    }     else if case <= 207 {
        lemma_cases_192_to_207(case, k);
    }     else if case <= 223 {
        lemma_cases_208_to_223(case, k);
    }     else if case <= 239 {
        lemma_cases_224_to_239(case, k);
    }     else if case <= 255 {
        lemma_cases_240_to_255(case, k);
    }
}

} // verus!
