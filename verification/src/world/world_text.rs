//! Combat message templates with placeholders for the two fighters, the
//! body part struck and the weapon.

use vstd::prelude::*;
use vstd::string::*;
use crate::combat::{matches_at, starts_at};
use crate::styled::{chars_of, string_of, push_char};
use crate::world::world_player::Player;

verus! {

/// What a combat message speaks of.
pub struct RenderContext<'a> {
    pub attacker: &'a Player,
    pub defender: &'a Player,
    pub body_part: &'a str,
    pub weapon: &'a str,
}

/// `s` with every occurrence of `p` (taken left to right, not overlapping)
/// replaced by `r`.
pub open spec fn replaced(s: Seq<char>, p: Seq<char>, r: Seq<char>) -> Seq<char>
    decreases s.len(),
{
    if s.len() == 0 || p.len() == 0 {
        s
    } else if starts_at(s, 0, p) {
        r + replaced(s.skip(p.len() as int), p, r)
    } else {
        seq![s[0]] + replaced(s.skip(1), p, r)
    }
}

/// Replaces every occurrence of a non-empty pattern (`str::replace`).
pub fn replace_all(s: &str, p: &str, r: &str) -> (out: String)
    requires
        p@.len() > 0,
    ensures
        out@ == replaced(s@, p@, r@),
{
    let cs = chars_of(s);
    let pc = chars_of(p);
    let mut out = String::new();
    let mut i: usize = 0;
    proof { assert(cs@.skip(0) =~= cs@); }
    while i < cs.len()
        invariant
            cs@ == s@,
            pc@ == p@,
            p@.len() > 0,
            i <= cs.len(),
            out@ + replaced(cs@.skip(i as int), p@, r@) == replaced(s@, p@, r@),
        decreases cs.len() - i,
    {
        let ghost rest = cs@.skip(i as int);
        let ghost o0 = out@;
        if matches_at(&cs, i, &pc) {
            proof {
                assert(rest.take(p@.len() as int) =~= cs@.subrange(i as int, i + p@.len()));
                assert(starts_at(rest, 0, p@));
                assert(rest.skip(p@.len() as int) =~= cs@.skip(i + p@.len()));
            }
            out.append(r);
            i = i + pc.len();
            proof { assert(out@ + replaced(cs@.skip(i as int), p@, r@) =~= o0 + replaced(rest, p@, r@)); }
        } else {
            proof {
                if starts_at(rest, 0, p@) {
                    assert(cs@.subrange(i as int, i + p@.len()) =~= rest.subrange(0, p@.len() as int));
                }
                assert(rest.skip(1) =~= cs@.skip(i + 1));
                assert(rest[0] == cs@[i as int]);
            }
            push_char(&mut out, cs[i]);
            i = i + 1;
            proof { assert(out@ + replaced(cs@.skip(i as int), p@, r@) =~= o0 + replaced(rest, p@, r@)); }
        }
    }
    proof { assert(out@ + replaced(cs@.skip(i as int), p@, r@) =~= out@); }
    out
}

/// A rendered template: `$N` the attacker's name, `$n` the defender's, `$l`
/// the body part and `$w` the weapon, replaced in that order.
pub open spec fn rendered(template: Seq<char>, attacker: Seq<char>, defender: Seq<char>, part: Seq<char>, weapon: Seq<char>) -> Seq<char> {
    replaced(replaced(replaced(replaced(template, "$N"@, attacker), "$n"@, defender), "$l"@, part), "$w"@, weapon)
}

/// Renders a combat message template for the given names, part and weapon.
pub fn render_names(template: &str, attacker: &str, defender: &str, part: &str, weapon: &str) -> (out: String)
    ensures
        out@ == rendered(template@, attacker@, defender@, part@, weapon@),
{
    proof {
        reveal_strlit("$N");
        reveal_strlit("$n");
        reveal_strlit("$l");
        reveal_strlit("$w");
    }
    let a = replace_all(template, "$N", attacker);
    let b = replace_all(a.as_str(), "$n", defender);
    let c = replace_all(b.as_str(), "$l", part);
    replace_all(c.as_str(), "$w", weapon)
}

/// Renders a combat message template.
pub fn render(template: &str, context: &RenderContext) -> (out: String)
    ensures
        out@ == rendered(template@, context.attacker.name@, context.defender.name@, context.body_part@, context.weapon@),
{
    render_names(template, context.attacker.name.as_str(), context.defender.name.as_str(), context.body_part, context.weapon)
}

} // verus!
