//! Firing a gun in a fan: one charge spent, every body part of everyone
//! standing in the cone hit.
use vstd::prelude::*;
use crate::geom::Point;

verus! {

/// Damage of one shot, in the four amounts an item definition lists.
#[derive(Clone, Copy, PartialEq, Eq, Structural, Debug)]
pub struct Damage(pub u32, pub u32, pub u32, pub u32);

/// A loaded gun: charges left, magazine size, damage per hit, reach in tiles.
#[derive(Clone, Copy, PartialEq, Eq, Structural, Debug)]
pub struct Firearm {
    pub ammo: u32,
    pub max_ammo: u32,
    pub damage: Damage,
    pub range: u32,
}

/// Someone standing on a tile who can be hit: its entity and how many body
/// parts it has.
#[derive(Clone, Copy, PartialEq, Eq, Structural, Debug)]
pub struct Target {
    pub entity_id: usize,
    pub parts: usize,
}

/// One hit on one body part.
#[derive(Clone, Copy, PartialEq, Eq, Structural, Debug)]
pub struct Hit {
    pub entity_id: usize,
    pub bodypart_index: usize,
    pub raw_damage: Damage,
}

/// What a fan of fire did: the gun afterwards, the hits in order, and the
/// tiles of the cone to animate.
pub struct FanFire {
    pub gun: Firearm,
    pub hits: Vec<Hit>,
    pub arc: Vec<Point>,
}

/// Index of tile `p` on a map `width` tiles wide.
pub open spec fn tile_index(p: Point, width: int) -> int {
    p.y * width + p.x
}

/// One hit per body part of `t`, in part order.
pub open spec fn hits_on(t: Target, damage: Damage) -> Seq<Hit> {
    Seq::new(t.parts as nat, |p: int| Hit { entity_id: t.entity_id, bodypart_index: p as usize, raw_damage: damage })
}

/// The hits on the first `k` tiles of the cone, tile by tile.
pub open spec fn cone_hits(cone: Seq<Point>, targets: Seq<Option<Target>>, width: int, damage: Damage, k: int) -> Seq<Hit>
    decreases k,
{
    if k <= 0 {
        Seq::empty()
    } else {
        cone_hits(cone, targets, width, damage, k - 1) + match targets[tile_index(cone[k - 1], width)] {
            Some(t) => hits_on(t, damage),
            None => Seq::empty(),
        }
    }
}

/// Fires `gun` in a fan from `src` toward `target`. `in_cone` lists the map
/// tiles of the 45 degree cone toward the target within the gun's range, in
/// the order they are swept, and `targets` who stands on each tile of a map
/// `width` tiles wide. An empty gun only clicks: nothing changes. Otherwise
/// exactly one charge is spent; aimed at the shooter's own tile the shot
/// goes nowhere; else every body part of everyone in the cone takes one hit
/// of the gun's damage, and the cone is animated.
pub fn fan_fire(
    gun: Firearm,
    src: Point,
    target: Point,
    in_cone: &Vec<Point>,
    targets: &Vec<Option<Target>>,
    width: usize,
) -> (r: FanFire)
    requires
        forall|i: int|
            0 <= i < in_cone@.len() ==> 0 <= (#[trigger] in_cone@[i]).x < width && 0 <= in_cone@[i].y && tile_index(
                in_cone@[i],
                width as int,
            ) < targets@.len(),
    ensures
        gun.ammo == 0 ==> r.gun == gun && r.hits@.len() == 0 && r.arc@.len() == 0,
        gun.ammo > 0 ==> r.gun == (Firearm { ammo: (gun.ammo - 1) as u32, ..gun }),
        gun.ammo > 0 && src == target ==> r.hits@.len() == 0 && r.arc@.len() == 0,
        gun.ammo > 0 && src != target ==> r.arc@ == in_cone@ && r.hits@ == cone_hits(
            in_cone@,
            targets@,
            width as int,
            gun.damage,
            in_cone@.len() as int,
        ),
{
    if gun.ammo < 1 {
        return FanFire { gun, hits: Vec::new(), arc: Vec::new() };
    }
    let spent = Firearm { ammo: gun.ammo - 1, ..gun };
    if src == target {
        return FanFire { gun: spent, hits: Vec::new(), arc: Vec::new() };
    }
    let mut hits: Vec<Hit> = Vec::new();
    let mut arc: Vec<Point> = Vec::new();
    let mut i: usize = 0;
    while i < in_cone.len()
        invariant
            i <= in_cone@.len(),
            forall|j: int|
                0 <= j < in_cone@.len() ==> 0 <= (#[trigger] in_cone@[j]).x < width && 0 <= in_cone@[j].y && tile_index(
                    in_cone@[j],
                    width as int,
                ) < targets@.len(),
            arc@ == in_cone@.take(i as int),
            hits@ == cone_hits(in_cone@, targets@, width as int, gun.damage, i as int),
        decreases in_cone@.len() - i,
    {
        let p = in_cone[i];
        let n = targets.len();
        proof {
            assert(tile_index(in_cone@[i as int], width as int) < n);
            assert(0 <= p.y * width <= p.y * width + p.x < n) by (nonlinear_arith)
                requires
                    0 <= p.y,
                    0 <= p.x,
                    p.y * width + p.x < n,
            ;
        }
        let idx = (p.y as usize) * width + (p.x as usize);
        let ghost before = hits@;
        match targets[idx] {
            Some(t) => {
                let mut part: usize = 0;
                while part < t.parts
                    invariant
                        part <= t.parts,
                        hits@ == before + hits_on(t, gun.damage).take(part as int),
                    decreases t.parts - part,
                {
                    hits.push(Hit { entity_id: t.entity_id, bodypart_index: part, raw_damage: gun.damage });
                    proof {
                        assert(hits_on(t, gun.damage).take(part + 1) =~= hits_on(t, gun.damage).take(part as int).push(
                            hits_on(t, gun.damage)[part as int],
                        ));
                    }
                    part = part + 1;
                }
                proof {
                    assert(hits_on(t, gun.damage).take(t.parts as int) =~= hits_on(t, gun.damage));
                }
            },
            None => {
                proof {
                    assert(hits@ =~= before + Seq::<Hit>::empty());
                }
            },
        }
        arc.push(p);
        proof {
            assert(in_cone@.take(i + 1) =~= in_cone@.take(i as int).push(p));
        }
        i = i + 1;
    }
    proof {
        assert(in_cone@.take(in_cone@.len() as int) =~= in_cone@);
    }
    FanFire { gun: spent, hits, arc }
}

/// What a shot at one tile did: the gun afterwards and the hits, in order.
pub struct Shot {
    pub gun: Firearm,
    pub hits: Vec<Hit>,
}

/// `n` hits of the gun's damage on body part `part` of `t`.
pub open spec fn repeated_hits(t: Target, part: usize, damage: Damage, n: int) -> Seq<Hit> {
    Seq::new(n as nat, |i: int| Hit { entity_id: t.entity_id, bodypart_index: part, raw_damage: damage })
}

/// Fires one round at a tile where `target` stands (if anyone does),
/// aiming at body part `part`. An empty gun only clicks; otherwise one
/// charge is spent and whoever stands there takes one hit on that part.
pub fn single_fire(gun: Firearm, target: Option<Target>, part: usize) -> (r: Shot)
    ensures
        gun.ammo == 0 ==> r.gun == gun && r.hits@.len() == 0,
        gun.ammo > 0 ==> r.gun == (Firearm { ammo: (gun.ammo - 1) as u32, ..gun }) && r.hits@ == match target {
            Some(t) => repeated_hits(t, part, gun.damage, 1),
            None => Seq::empty(),
        },
{
    if gun.ammo < 1 {
        return Shot { gun, hits: Vec::new() };
    }
    let mut hits: Vec<Hit> = Vec::new();
    if let Some(t) = target {
        hits.push(Hit { entity_id: t.entity_id, bodypart_index: part, raw_damage: gun.damage });
        assert(hits@ =~= repeated_hits(t, part, gun.damage, 1));
    }
    Shot { gun: Firearm { ammo: gun.ammo - 1, ..gun }, hits }
}

/// Fires a burst of up to five rounds at a tile where `target` stands (if
/// anyone does), aiming at body part `part`. An empty gun only clicks;
/// otherwise five charges are spent, or all that are left when fewer, and
/// whoever stands there takes one hit per round fired on that part.
pub fn burst_fire(gun: Firearm, target: Option<Target>, part: usize) -> (r: Shot)
    ensures
        gun.ammo == 0 ==> r.gun == gun && r.hits@.len() == 0,
        gun.ammo > 0 ==> {
            let shots = if gun.ammo < 5 { gun.ammo as int } else { 5 };
            &&& r.gun == (Firearm { ammo: (gun.ammo - shots) as u32, ..gun })
            &&& r.hits@ == match target {
                Some(t) => repeated_hits(t, part, gun.damage, shots),
                None => Seq::empty(),
            }
        },
{
    if gun.ammo == 0 {
        return Shot { gun, hits: Vec::new() };
    }
    let shots: u32 = if gun.ammo < 5 { gun.ammo } else { 5 };
    let mut hits: Vec<Hit> = Vec::new();
    if let Some(t) = target {
        let mut k: u32 = 0;
        while k < shots
            invariant
                k <= shots,
                hits@ == repeated_hits(t, part, gun.damage, k as int),
            decreases shots - k,
        {
            hits.push(Hit { entity_id: t.entity_id, bodypart_index: part, raw_damage: gun.damage });
            k = k + 1;
            assert(hits@ =~= repeated_hits(t, part, gun.damage, k as int));
        }
    }
    Shot { gun: Firearm { ammo: gun.ammo - shots, ..gun }, hits }
}

/// Fires a rocket at a tile where `target` stands (if anyone does). An empty
/// launcher only clicks; otherwise one charge is spent, every body part of
/// whoever stands there takes one hit, and the blast also breaks the wall of
/// the tile (which the caller applies, with the animation).
pub fn rocket_fire(gun: Firearm, target: Option<Target>) -> (r: Shot)
    ensures
        gun.ammo == 0 ==> r.gun == gun && r.hits@.len() == 0,
        gun.ammo > 0 ==> r.gun == (Firearm { ammo: (gun.ammo - 1) as u32, ..gun }) && r.hits@ == match target {
            Some(t) => hits_on(t, gun.damage),
            None => Seq::empty(),
        },
{
    if gun.ammo < 1 {
        return Shot { gun, hits: Vec::new() };
    }
    let mut hits: Vec<Hit> = Vec::new();
    if let Some(t) = target {
        let mut part: usize = 0;
        while part < t.parts
            invariant
                part <= t.parts,
                hits@ == hits_on(t, gun.damage).take(part as int),
            decreases t.parts - part,
        {
            hits.push(Hit { entity_id: t.entity_id, bodypart_index: part, raw_damage: gun.damage });
            part = part + 1;
            assert(hits@ =~= hits_on(t, gun.damage).take(part as int));
        }
        assert(hits_on(t, gun.damage).take(t.parts as int) =~= hits_on(t, gun.damage));
    }
    Shot { gun: Firearm { ammo: gun.ammo - 1, ..gun }, hits }
}

/// A melee strike on whoever stands on the tile: one hit of one point of the
/// first damage kind on body part 1.
pub fn melee(target: Target) -> (r: Hit)
    ensures
        r == (Hit { entity_id: target.entity_id, bodypart_index: 1, raw_damage: Damage(1, 0, 0, 0) }),
{
    Hit { entity_id: target.entity_id, bodypart_index: 1, raw_damage: Damage(1, 0, 0, 0) }
}

} // verus!
