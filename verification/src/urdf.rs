//! Naming rules of the URDF robot loader: which visuals of a robot description are
//! kept, which side of the robot a link belongs to, and which joint angle drives a
//! joint.
use vstd::prelude::*;

use crate::text::{collect_chars, has_prefix, parse_usize, parse_usize_span, starts_with};

verus! {

/// The side of the robot a link belongs to, read from the start of its name.
#[derive(Debug, Clone, Copy, PartialEq, Eq, Structural)]
pub enum LinkSide {
    Left,
    Right,
    Base,
}

pub open spec fn left_word() -> Seq<char> {
    seq!['l', 'e', 'f', 't']
}

pub open spec fn right_word() -> Seq<char> {
    seq!['r', 'i', 'g', 'h', 't']
}

/// `left_joint_`
pub open spec fn left_joint_prefix() -> Seq<char> {
    seq!['l', 'e', 'f', 't', '_', 'j', 'o', 'i', 'n', 't', '_']
}

/// `right_joint_`
pub open spec fn right_joint_prefix() -> Seq<char> {
    seq!['r', 'i', 'g', 'h', 't', '_', 'j', 'o', 'i', 'n', 't', '_']
}

/// Names starting with `left` are left links, then names starting with `right` are
/// right links; every other link belongs to the base.
pub open spec fn side_of(name: Seq<char>) -> LinkSide {
    if has_prefix(name, left_word()) {
        LinkSide::Left
    } else if has_prefix(name, right_word()) {
        LinkSide::Right
    } else {
        LinkSide::Base
    }
}

/// The geometry of a URDF visual.
#[derive(Debug, Clone, Copy, PartialEq, Eq, Structural)]
pub enum VisualShape {
    Box,
    Cylinder,
    Sphere,
    Capsule,
    /// A mesh file; the loader does not read these.
    Mesh,
}

/// A URDF link as the loader reads it: its name and the shapes of its visuals, in
/// document order.
#[derive(Debug)]
pub struct UrdfLink {
    pub name: String,
    pub visuals: Vec<VisualShape>,
}

/// A visual the loader keeps: the link and visual it comes from, and the side of
/// the robot that colours it.
#[derive(Debug, Clone, Copy, PartialEq, Eq, Structural)]
pub struct VisualSlot {
    pub link: usize,
    pub visual: usize,
    pub side: LinkSide,
}

/// The kept visuals among the first `m` visuals of link `l`, named `name`.
pub open spec fn link_slots(name: Seq<char>, shapes: Seq<VisualShape>, l: int, m: int) -> Seq<
    VisualSlot,
>
    decreases m,
{
    if m <= 0 {
        Seq::empty()
    } else if shapes[m - 1] == VisualShape::Mesh {
        link_slots(name, shapes, l, m - 1)
    } else {
        link_slots(name, shapes, l, m - 1).push(
            VisualSlot { link: l as usize, visual: (m - 1) as usize, side: side_of(name) },
        )
    }
}

/// The kept visuals of the first `n` links, link by link, each in document order.
pub open spec fn kept_visuals(links: Seq<UrdfLink>, n: int) -> Seq<VisualSlot>
    decreases n,
{
    if n <= 0 {
        Seq::empty()
    } else {
        kept_visuals(links, n - 1) + link_slots(
            links[n - 1].name@,
            links[n - 1].visuals@,
            n - 1,
            links[n - 1].visuals@.len() as int,
        )
    }
}

/// The joint angle that drives a joint: `left_joint_N` takes left angle `N - 1` and
/// `right_joint_N` right angle `N - 1`, for `N` from one to the number of angles on
/// that side; `None` for every other name.
pub open spec fn joint_slot(name: Seq<char>, left_count: int, right_count: int) -> Option<
    (LinkSide, int),
> {
    let l = parse_usize(name.skip(left_joint_prefix().len() as int));
    let r = parse_usize(name.skip(right_joint_prefix().len() as int));
    if has_prefix(name, left_joint_prefix()) && l is Some && 0 < l->0 <= left_count {
        Some((LinkSide::Left, l->0 - 1))
    } else if has_prefix(name, right_joint_prefix()) && r is Some && 0 < r->0 <= right_count {
        Some((LinkSide::Right, r->0 - 1))
    } else {
        None
    }
}

/// Loads robot descriptions; this part holds its naming rules.
pub struct UrdfLoader;

impl UrdfLoader {
    /// The side of the robot a link belongs to, by its name.
    pub fn link_side(name: &str) -> (r: LinkSide)
        ensures
            r == side_of(name@),
    {
        let s = collect_chars(name);
        let left = ['l', 'e', 'f', 't'];
        let right = ['r', 'i', 'g', 'h', 't'];
        proof {
            assert(left@ =~= left_word());
            assert(right@ =~= right_word());
        }
        if starts_with(&s, &left) {
            LinkSide::Left
        } else if starts_with(&s, &right) {
            LinkSide::Right
        } else {
            LinkSide::Base
        }
    }

    /// The visuals to build: every visual of every link, in order, but mesh files.
    pub fn visual_slots(links: &Vec<UrdfLink>) -> (r: Vec<VisualSlot>)
        ensures
            r@ == kept_visuals(links@, links@.len() as int),
    {
        let mut r: Vec<VisualSlot> = Vec::new();
        let mut l: usize = 0;
        while l < links.len()
            invariant
                0 <= l <= links@.len(),
                r@ == kept_visuals(links@, l as int),
            decreases links@.len() - l,
        {
            let link = &links[l];
            let side = Self::link_side(link.name.as_str());
            let ghost base = r@;
            let mut v: usize = 0;
            while v < link.visuals.len()
                invariant
                    0 <= l < links@.len(),
                    *link == links@[l as int],
                    side == side_of(link.name@),
                    0 <= v <= link.visuals@.len(),
                    r@ == base + link_slots(link.name@, link.visuals@, l as int, v as int),
                decreases link.visuals@.len() - v,
            {
                if link.visuals[v] != VisualShape::Mesh {
                    r.push(VisualSlot { link: l, visual: v, side });
                    proof {
                        assert(r@ =~= base + link_slots(
                            link.name@,
                            link.visuals@,
                            l as int,
                            v + 1,
                        ));
                    }
                }
                v += 1;
            }
            l += 1;
        }
        r
    }
}

/// The angle of joint `joint_name`, taken from the left or right angles by the
/// number at the end of its name, or `zero` where the name gives none.
pub fn joint_angle<T: Copy>(joint_name: &str, left_angles: &[T], right_angles: &[T], zero: T) -> (r: T)
    ensures
        r == match joint_slot(joint_name@, left_angles@.len() as int, right_angles@.len() as int) {
            Some((LinkSide::Left, i)) => left_angles@[i],
            Some((LinkSide::Right, i)) => right_angles@[i],
            _ => zero,
        },
{
    let s = collect_chars(joint_name);
    let lp = ['l', 'e', 'f', 't', '_', 'j', 'o', 'i', 'n', 't', '_'];
    let rp = ['r', 'i', 'g', 'h', 't', '_', 'j', 'o', 'i', 'n', 't', '_'];
    proof {
        assert(lp@ =~= left_joint_prefix());
        assert(rp@ =~= right_joint_prefix());
    }
    if starts_with(&s, &lp) {
        assert(s@.subrange(11, s@.len() as int) =~= s@.skip(11));
        if let Some(idx) = parse_usize_span(&s, 11, s.len()) {
            if idx > 0 && idx <= left_angles.len() {
                return left_angles[idx - 1];
            }
        }
    }
    if starts_with(&s, &rp) {
        assert(s@.subrange(12, s@.len() as int) =~= s@.skip(12));
        if let Some(idx) = parse_usize_span(&s, 12, s.len()) {
            if idx > 0 && idx <= right_angles.len() {
                return right_angles[idx - 1];
            }
        }
    }
    zero
}

} // verus!
