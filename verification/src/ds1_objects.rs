use vstd::prelude::*;
use crate::cursor::{can_read, u32_at, ByteCursor};
use crate::ds1::{object_models, Ds1, Object, ObjectModel, PathNode, TagGroup};
use crate::error::FormatError;

verus! {

/// Whether the file lists objects.
pub open spec fn has_objects(version: u32) -> bool {
    version >= 2
}

/// Whether an object record stores flags.
pub open spec fn has_object_flags(version: u32) -> bool {
    version >= 5
}

/// The length of one object record in bytes.
pub open spec fn object_len(version: u32) -> int {
    if has_object_flags(version) {
        20
    } else {
        16
    }
}

/// The object whose record starts at `c`. Its path is assigned later.
pub open spec fn object_at(b: Seq<u8>, c: int, version: u32) -> ObjectModel {
    ObjectModel {
        type_: u32_at(b, c),
        id: u32_at(b, c + 4),
        x: u32_at(b, c + 8),
        y: u32_at(b, c + 12),
        flags: if has_object_flags(version) {
            u32_at(b, c + 16)
        } else {
            0
        },
        path_nodes: Seq::empty(),
    }
}

/// The objects at `p`: a count and that many records, where the version
/// has them.
pub open spec fn parse_objects(b: Seq<u8>, p: int, version: u32) -> Result<
    (Seq<ObjectModel>, int),
    FormatError,
> {
    if !has_objects(version) {
        Ok((Seq::empty(), p))
    } else if !can_read(b, p, 4) {
        Err(FormatError::Truncated)
    } else {
        let n = u32_at(b, p) as int;
        let size = object_len(version);
        if !can_read(b, p + 4, n * size) {
            Err(FormatError::Truncated)
        } else {
            Ok(
                (
                    Seq::new(n as nat, |k: int| object_at(b, p + 4 + k * size, version)),
                    p + 4 + n * size,
                ),
            )
        }
    }
}

/// Whether the file lists tag groups.
pub open spec fn has_tag_groups(version: u32, tag_type: u32) -> bool {
    version >= 12 && (tag_type == 1 || tag_type == 2)
}

/// Whether four reserved bytes stand before the tag groups.
pub open spec fn has_tag_group_pad(version: u32) -> bool {
    version >= 18
}

/// Whether a tag group record stores its last, unexplained field.
pub open spec fn has_tag_group_unknown(version: u32) -> bool {
    version >= 13
}

/// The length of one tag group record in bytes.
pub open spec fn tag_group_len(version: u32) -> int {
    if has_tag_group_unknown(version) {
        20
    } else {
        16
    }
}

/// The tag group whose record starts at `c`.
pub open spec fn tag_group_at(b: Seq<u8>, c: int, version: u32) -> TagGroup {
    TagGroup {
        tile_x: u32_at(b, c),
        tile_y: u32_at(b, c + 4),
        width: u32_at(b, c + 8),
        height: u32_at(b, c + 12),
        unknown: if has_tag_group_unknown(version) {
            u32_at(b, c + 16)
        } else {
            0
        },
    }
}

/// What the tag group section holds.
pub struct TagGroupSection {
    /// The groups whose records are whole.
    pub groups: Seq<TagGroup>,
    /// The offset behind the last whole record.
    pub next: int,
    /// Whether the buffer ends before the announced number of groups.
    pub cut_short: bool,
}

/// The tag groups at `p`. The section announces a number of groups; where
/// the buffer ends before that many records, the whole records before its
/// end are the section, and that is no error.
pub open spec fn parse_tag_groups(b: Seq<u8>, p: int, version: u32, tag_type: u32) -> Result<
    TagGroupSection,
    FormatError,
> {
    if !has_tag_groups(version, tag_type) {
        Ok(TagGroupSection { groups: Seq::empty(), next: p, cut_short: false })
    } else {
        let q = if has_tag_group_pad(version) {
            p + 4
        } else {
            p
        };
        if !can_read(b, p, q + 4 - p) {
            Err(FormatError::Truncated)
        } else {
            let announced = u32_at(b, q) as int;
            let size = tag_group_len(version);
            let whole = (b.len() - (q + 4)) / size;
            let n = if announced <= whole {
                announced
            } else {
                whole
            };
            Ok(
                TagGroupSection {
                    groups: Seq::new(n as nat, |k: int| tag_group_at(b, q + 4 + k * size, version)),
                    next: q + 4 + n * size,
                    cut_short: announced > whole,
                },
            )
        }
    }
}

/// Whether a path node stores its action.
pub open spec fn has_node_action(version: u32) -> bool {
    version >= 15
}

/// The length of one path node record in bytes.
pub open spec fn node_len(version: u32) -> int {
    if has_node_action(version) {
        12
    } else {
        8
    }
}

/// The path node whose record starts at `c`.
pub open spec fn node_at(b: Seq<u8>, c: int, version: u32) -> PathNode {
    PathNode {
        x: u32_at(b, c),
        y: u32_at(b, c + 4),
        action: if has_node_action(version) {
            u32_at(b, c + 8)
        } else {
            1
        },
    }
}

/// The `n` path nodes whose records start at `c`.
pub open spec fn nodes_at(b: Seq<u8>, c: int, n: nat, version: u32) -> Seq<PathNode> {
    Seq::new(n, |k: int| node_at(b, c + k * node_len(version), version))
}

/// `objects` with `nodes` appended to the path of every object at `(x, y)`.
pub open spec fn attach(objects: Seq<ObjectModel>, x: u32, y: u32, nodes: Seq<PathNode>) -> Seq<
    ObjectModel,
> {
    Seq::new(
        objects.len(),
        |i: int|
            if objects[i].x == x && objects[i].y == y {
                ObjectModel { path_nodes: objects[i].path_nodes + nodes, ..objects[i] }
            } else {
                objects[i]
            },
    )
}

/// The path group at `p`: a node count, the position of the objects it is
/// for, and the nodes. The nodes go to every object at that position; where
/// there is none they are passed over.
pub open spec fn parse_path_group(
    b: Seq<u8>,
    p: int,
    version: u32,
    objects: Seq<ObjectModel>,
) -> Result<(Seq<ObjectModel>, int), FormatError> {
    if !can_read(b, p, 12) {
        Err(FormatError::Truncated)
    } else {
        let n = u32_at(b, p) as int;
        let size = node_len(version);
        if !can_read(b, p + 12, n * size) {
            Err(FormatError::Truncated)
        } else {
            Ok(
                (
                    attach(
                        objects,
                        u32_at(b, p + 4),
                        u32_at(b, p + 8),
                        nodes_at(b, p + 12, n as nat, version),
                    ),
                    p + 12 + n * size,
                ),
            )
        }
    }
}

/// `objects` after the first `n` path groups from `p` on, and the offset
/// behind the last of them.
pub open spec fn parse_path_groups(
    b: Seq<u8>,
    p: int,
    version: u32,
    objects: Seq<ObjectModel>,
    n: nat,
) -> Result<(Seq<ObjectModel>, int), FormatError>
    decreases n,
{
    if n == 0 {
        Ok((objects, p))
    } else {
        match parse_path_groups(b, p, version, objects, (n - 1) as nat) {
            Err(e) => Err(e),
            Ok((assigned, q)) => parse_path_group(b, q, version, assigned),
        }
    }
}

/// `objects` with the paths of the section at `p`: a count of groups and the
/// groups.
pub open spec fn parse_paths(b: Seq<u8>, p: int, version: u32, objects: Seq<ObjectModel>) -> Result<
    (Seq<ObjectModel>, int),
    FormatError,
> {
    if !can_read(b, p, 4) {
        Err(FormatError::Truncated)
    } else {
        parse_path_groups(b, p + 4, version, objects, u32_at(b, p) as nat)
    }
}

/// A buffer that ends inside the tag groups is no error: once the count of
/// groups is read, the section is the groups whose records are whole, as
/// many as announced at most.
pub proof fn lemma_tag_groups_survive_a_short_buffer(
    b: Seq<u8>,
    p: int,
    version: u32,
    tag_type: u32,
)
    requires
        0 <= p,
        has_tag_groups(version, tag_type),
        can_read(
            b,
            p,
            if has_tag_group_pad(version) {
                8
            } else {
                4
            },
        ),
    ensures
        parse_tag_groups(b, p, version, tag_type) is Ok,
        ({
            let section = parse_tag_groups(b, p, version, tag_type)->Ok_0;
            let first = if has_tag_group_pad(version) {
                p + 8
            } else {
                p + 4
            };
            let announced = u32_at(b, first - 4) as int;
            &&& section.groups.len() <= announced
            &&& section.next == first + section.groups.len() * tag_group_len(version)
            &&& section.next <= b.len()
            &&& section.cut_short <==> section.groups.len() < announced
            &&& section.cut_short ==> b.len() - section.next < tag_group_len(version)
        }),
{
    let first = if has_tag_group_pad(version) {
        p + 8
    } else {
        p + 4
    };
    let size = tag_group_len(version);
    let whole = (b.len() - first) / size;
    vstd::arithmetic::div_mod::lemma_fundamental_div_mod(b.len() - first, size);
    vstd::arithmetic::div_mod::lemma_mod_bound(b.len() - first, size);
    assert(size * whole == whole * size) by (nonlinear_arith);
    assert(0 <= whole) by (nonlinear_arith)
        requires
            size * whole <= b.len() - first,
            b.len() - first - size * whole < size,
            0 <= b.len() - first,
            size == 16 || size == 20,
    ;
}

/// Once some prefix of the path groups fails, every longer prefix fails
/// alike.
pub proof fn lemma_parse_path_groups_fails(
    b: Seq<u8>,
    p: int,
    version: u32,
    objects: Seq<ObjectModel>,
    k: nat,
    n: nat,
)
    requires
        k <= n,
        parse_path_groups(b, p, version, objects, k) is Err,
    ensures
        parse_path_groups(b, p, version, objects, n) == parse_path_groups(b, p, version, objects, k),
    decreases n,
{
    if k < n {
        lemma_parse_path_groups_fails(b, p, version, objects, k, (n - 1) as nat);
    }
}

impl Ds1 {
    /// Reads the objects, where the version has them.
    pub fn read_objects(cur: &mut ByteCursor, version: u32) -> (r: Result<Vec<Object>, FormatError>)
        ensures
            final(cur).bytes() == old(cur).bytes(),
            match parse_objects(old(cur).bytes(), old(cur).pos() as int, version) {
                Ok((objects, next)) => r is Ok && object_models(r->Ok_0@) == objects && final(
                    cur).pos() == next,
                Err(e) => r == Err::<Vec<Object>, FormatError>(e),
            },
    {
        let ghost b = cur.bytes();
        let ghost p = cur.pos() as int;
        let mut objects: Vec<Object> = Vec::new();
        if !Ds1::has_objects(version) {
            proof {
                assert(object_models(objects@) =~= Seq::<ObjectModel>::empty());
            }
            return Ok(objects);
        }
        let count: u32 = cur.read_u32()?;
        let with_flags: bool = Ds1::has_object_flags(version);
        let size: u64 = if with_flags {
            20
        } else {
            16
        };
        if (count as u64) * size > cur.remaining() as u64 {
            return Err(FormatError::Truncated);
        }
        let mut i: u32 = 0;
        while i < count
            invariant
                cur.bytes() == b,
                0 <= i <= count,
                size == object_len(version),
                with_flags == has_object_flags(version),
                can_read(b, p + 4, count * size),
                cur.pos() == p + 4 + i * size,
                objects@.len() == i,
                forall|k: int|
                    0 <= k < i ==> (#[trigger] objects@[k])@ == object_at(
                        b,
                        p + 4 + k * size,
                        version,
                    ),
            decreases count - i,
        {
            proof {
                assert((i + 1) * size == i * size + size) by (nonlinear_arith);
                assert((i + 1) * size <= count * size) by (nonlinear_arith)
                    requires
                        i + 1 <= count,
                        0 <= size,
                ;
            }
            let type_: u32 = cur.read_u32()?;
            let id: u32 = cur.read_u32()?;
            let x: u32 = cur.read_u32()?;
            let y: u32 = cur.read_u32()?;
            let mut flags: u32 = 0;
            if with_flags {
                flags = cur.read_u32()?;
            }
            objects.push(Object { type_, id, x, y, flags, path_nodes: Vec::new() });
            proof {
                assert(objects@[i as int]@.path_nodes =~= Seq::<PathNode>::empty());
            }
            i = i + 1;
        }
        proof {
            assert(object_models(objects@) =~= Seq::new(
                count as nat,
                |k: int| object_at(b, p + 4 + k * size, version),
            ));
        }
        Ok(objects)
    }

    /// Reads the tag groups, where version and tag type have them. The
    /// second part of the result says whether the buffer ended before the
    /// announced number of groups.
    pub fn read_tag_groups(cur: &mut ByteCursor, version: u32, tag_type: u32) -> (r: Result<
        (Vec<TagGroup>, bool),
        FormatError,
    >)
        ensures
            final(cur).bytes() == old(cur).bytes(),
            match parse_tag_groups(old(cur).bytes(), old(cur).pos() as int, version, tag_type) {
                Ok(section) => r is Ok && r->Ok_0.0@ == section.groups && r->Ok_0.1
                    == section.cut_short && final(cur).pos() == section.next,
                Err(e) => r == Err::<(Vec<TagGroup>, bool), FormatError>(e),
            },
    {
        let ghost b = cur.bytes();
        let mut groups: Vec<TagGroup> = Vec::new();
        if !Ds1::has_tag_groups(version, tag_type) {
            return Ok((groups, false));
        }
        if Ds1::has_tag_group_pad(version) {
            if cur.remaining() < 8 {
                return Err(FormatError::Truncated);
            }
            cur.skip(4)?;
        }
        let ghost q = cur.pos() as int;
        let announced: u32 = cur.read_u32()?;
        let with_unknown: bool = Ds1::has_tag_group_unknown(version);
        let size: usize = if with_unknown {
            20
        } else {
            16
        };
        let whole: usize = cur.remaining() / size;
        let mut i: u32 = 0;
        while i < announced && (i as usize) < whole
            invariant
                cur.bytes() == b,
                0 <= i <= announced,
                i <= whole,
                size == tag_group_len(version),
                with_unknown == has_tag_group_unknown(version),
                q + 4 <= b.len(),
                whole == (b.len() - (q + 4)) / (size as int),
                cur.pos() == q + 4 + i * size,
                groups@.len() == i,
                forall|k: int|
                    0 <= k < i ==> #[trigger] groups@[k] == tag_group_at(
                        b,
                        q + 4 + k * size,
                        version,
                    ),
            decreases announced - i,
        {
            proof {
                assert((i + 1) * size == i * size + size) by (nonlinear_arith);
                assert((i + 1) * size <= whole * size) by (nonlinear_arith)
                    requires
                        i + 1 <= whole,
                        0 <= size,
                ;
                vstd::arithmetic::div_mod::lemma_fundamental_div_mod(
                    b.len() - (q + 4),
                    size as int,
                );
                vstd::arithmetic::div_mod::lemma_mod_bound(b.len() - (q + 4), size as int);
                assert(whole * size == size * whole) by (nonlinear_arith);
            }
            let tile_x: u32 = cur.read_u32()?;
            let tile_y: u32 = cur.read_u32()?;
            let width: u32 = cur.read_u32()?;
            let height: u32 = cur.read_u32()?;
            let mut unknown: u32 = 0;
            if with_unknown {
                unknown = cur.read_u32()?;
            }
            groups.push(TagGroup { tile_x, tile_y, width, height, unknown });
            i = i + 1;
        }
        proof {
            assert(groups@ =~= Seq::new(
                i as nat,
                |k: int| tag_group_at(b, q + 4 + k * size, version),
            ));
        }
        Ok((groups, i < announced))
    }

    /// Appends `nodes` to the path of every object at `(x, y)`.
    pub fn attach_nodes(objects: &mut Vec<Object>, x: u32, y: u32, nodes: &Vec<PathNode>)
        ensures
            object_models(final(objects)@) == attach(object_models(old(objects)@), x, y, nodes@),
    {
        let ghost initial = object_models(objects@);
        let total: usize = objects.len();
        let mut i: usize = 0;
        while i < total
            invariant
                0 <= i <= total,
                objects@.len() == total,
                initial.len() == total,
                initial == object_models(old(objects)@),
                forall|k: int|
                    0 <= k < i ==> (#[trigger] objects@[k])@ == attach(initial, x, y, nodes@)[k],
                forall|k: int| i <= k < total ==> (#[trigger] objects@[k])@ == initial[k],
            decreases total - i,
        {
            if objects[i].x == x && objects[i].y == y {
                let mut j: usize = 0;
                while j < nodes.len()
                    invariant
                        0 <= i < total,
                        0 <= j <= nodes@.len(),
                        objects@.len() == total,
                        initial.len() == total,
                        initial[i as int].x == x && initial[i as int].y == y,
                        forall|k: int|
                            0 <= k < i ==> (#[trigger] objects@[k])@ == attach(
                                initial,
                                x,
                                y,
                                nodes@,
                            )[k],
                        forall|k: int| i < k < total ==> (#[trigger] objects@[k])@ == initial[k],
                        objects@[i as int]@ == (ObjectModel {
                            path_nodes: initial[i as int].path_nodes + nodes@.take(j as int),
                            ..initial[i as int]
                        }),
                    decreases nodes@.len() - j,
                {
                    let node: PathNode = nodes[j];
                    objects[i].path_nodes.push(node);
                    proof {
                        assert(nodes@.take(j + 1) =~= nodes@.take(j as int).push(node));
                        assert(objects@[i as int]@.path_nodes =~= initial[i as int].path_nodes
                            + nodes@.take(j + 1));
                    }
                    j = j + 1;
                }
                proof {
                    assert(nodes@.take(j as int) =~= nodes@);
                }
            }
            i = i + 1;
        }
        proof {
            assert(object_models(objects@) =~= attach(initial, x, y, nodes@));
        }
    }

    /// Reads one path group and assigns its nodes.
    pub fn read_path_group(cur: &mut ByteCursor, version: u32, objects: &mut Vec<Object>) -> (r:
        Result<(), FormatError>)
        ensures
            final(cur).bytes() == old(cur).bytes(),
            match parse_path_group(
                old(cur).bytes(),
                old(cur).pos() as int,
                version,
                object_models(old(objects)@),
            ) {
                Ok((assigned, next)) => r is Ok && object_models(final(objects)@) == assigned
                    && final(cur).pos() == next,
                Err(e) => r == Err::<(), FormatError>(e),
            },
    {
        let ghost b = cur.bytes();
        let ghost p = cur.pos() as int;
        if cur.remaining() < 12 {
            return Err(FormatError::Truncated);
        }
        let count: u32 = cur.read_u32()?;
        let x: u32 = cur.read_u32()?;
        let y: u32 = cur.read_u32()?;
        let with_action: bool = Ds1::has_node_action(version);
        let size: u64 = if with_action {
            12
        } else {
            8
        };
        if (count as u64) * size > cur.remaining() as u64 {
            return Err(FormatError::Truncated);
        }
        let mut nodes: Vec<PathNode> = Vec::new();
        let mut i: u32 = 0;
        while i < count
            invariant
                cur.bytes() == b,
                0 <= i <= count,
                size == node_len(version),
                with_action == has_node_action(version),
                can_read(b, p + 12, count * size),
                cur.pos() == p + 12 + i * size,
                nodes@.len() == i,
                forall|k: int|
                    0 <= k < i ==> #[trigger] nodes@[k] == node_at(b, p + 12 + k * size, version),
            decreases count - i,
        {
            proof {
                assert((i + 1) * size == i * size + size) by (nonlinear_arith);
                assert((i + 1) * size <= count * size) by (nonlinear_arith)
                    requires
                        i + 1 <= count,
                        0 <= size,
                ;
            }
            let node_x: u32 = cur.read_u32()?;
            let node_y: u32 = cur.read_u32()?;
            let mut action: u32 = 1;
            if with_action {
                action = cur.read_u32()?;
            }
            nodes.push(PathNode { x: node_x, y: node_y, action });
            i = i + 1;
        }
        proof {
            assert(nodes@ =~= nodes_at(b, p + 12, count as nat, version));
        }
        Ds1::attach_nodes(objects, x, y, &nodes);
        Ok(())
    }

    /// Reads the path section and assigns every group's nodes to the objects
    /// at the group's position.
    pub fn read_npc_paths(cur: &mut ByteCursor, version: u32, objects: &mut Vec<Object>) -> (r:
        Result<(), FormatError>)
        ensures
            final(cur).bytes() == old(cur).bytes(),
            match parse_paths(
                old(cur).bytes(),
                old(cur).pos() as int,
                version,
                object_models(old(objects)@),
            ) {
                Ok((assigned, next)) => r is Ok && object_models(final(objects)@) == assigned
                    && final(cur).pos() == next,
                Err(e) => r == Err::<(), FormatError>(e),
            },
    {
        let ghost b = cur.bytes();
        let ghost initial = object_models(objects@);
        let count: u32 = cur.read_u32()?;
        let ghost first = cur.pos() as int;
        let mut i: u32 = 0;
        while i < count
            invariant
                cur.bytes() == b,
                b == old(cur).bytes(),
                initial == object_models(old(objects)@),
                first == old(cur).pos() + 4,
                can_read(b, old(cur).pos() as int, 4),
                count == u32_at(b, old(cur).pos() as int),
                0 <= i <= count,
                parse_path_groups(b, first, version, initial, i as nat) == Ok::<
                    (Seq<ObjectModel>, int),
                    FormatError,
                >((object_models(objects@), cur.pos() as int)),
            decreases count - i,
        {
            match Ds1::read_path_group(cur, version, objects) {
                Ok(_) => {},
                Err(e) => {
                    proof {
                        lemma_parse_path_groups_fails(
                            b,
                            first,
                            version,
                            initial,
                            (i + 1) as nat,
                            count as nat,
                        );
                    }
                    return Err(e);
                },
            }
            i = i + 1;
        }
        Ok(())
    }
}

} // verus!
