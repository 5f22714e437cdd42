//! The cache key namespace: `layer.{layer}.infra_{id}` for a layer,
//! `{layer prefix}.{view}` for one of its views and
//! `{view prefix}.tile/{z}/{x}/{y}` for one tile of that view.

use vstd::prelude::*;
use crate::tiles::TileCoordinate;

verus! {

pub open spec fn digit_char(d: nat) -> char {
    seq!['0', '1', '2', '3', '4', '5', '6', '7', '8', '9'][d as int]
}

/// The decimal digits of `n`, most significant first, with no leading zero.
pub open spec fn decimal(n: nat) -> Seq<char>
    decreases n,
{
    if n < 10 {
        seq![digit_char(n)]
    } else {
        decimal(n / 10).push(digit_char(n % 10))
    }
}

/// The decimal form of a signed integer, with a leading `-` when negative.
pub open spec fn signed_decimal(i: int) -> Seq<char> {
    if i < 0 {
        seq!['-'] + decimal((-i) as nat)
    } else {
        decimal(i as nat)
    }
}

pub open spec fn layer_prefix(layer: Seq<char>, infra_id: int) -> Seq<char> {
    "layer."@ + layer + ".infra_"@ + signed_decimal(infra_id)
}

pub open spec fn view_prefix(layer: Seq<char>, infra_id: int, view: Seq<char>) -> Seq<char> {
    layer_prefix(layer, infra_id) + "."@ + view
}

pub open spec fn tile_key(prefix: Seq<char>, t: TileCoordinate) -> Seq<char> {
    prefix + ".tile/"@ + decimal(t.z as nat) + "/"@ + decimal(t.x as nat) + "/"@ + decimal(
        t.y as nat,
    )
}

/// The glob pattern that matches every key under `prefix`.
pub open spec fn namespace_pattern(prefix: Seq<char>) -> Seq<char> {
    prefix + ".*"@
}

fn append_digit(s: &mut String, d: u64)
    requires
        d < 10,
    ensures
        final(s)@ == old(s)@.push(digit_char(d as nat)),
{
    proof {
        reveal_strlit("0");
        reveal_strlit("1");
        reveal_strlit("2");
        reveal_strlit("3");
        reveal_strlit("4");
        reveal_strlit("5");
        reveal_strlit("6");
        reveal_strlit("7");
        reveal_strlit("8");
        reveal_strlit("9");
    }
    let ghost before = s@;
    let digit: &str = if d == 0 {
        "0"
    } else if d == 1 {
        "1"
    } else if d == 2 {
        "2"
    } else if d == 3 {
        "3"
    } else if d == 4 {
        "4"
    } else if d == 5 {
        "5"
    } else if d == 6 {
        "6"
    } else if d == 7 {
        "7"
    } else if d == 8 {
        "8"
    } else {
        "9"
    };
    assert(digit@ =~= seq![digit_char(d as nat)]);
    s.append(digit);
    assert(s@ =~= before.push(digit_char(d as nat)));
}

/// Appends the decimal digits of `n` to `s`.
pub fn append_decimal(s: &mut String, n: u64)
    ensures
        final(s)@ == old(s)@ + decimal(n as nat),
    decreases n,
{
    let ghost before = s@;
    if n >= 10 {
        append_decimal(s, n / 10);
    }
    append_digit(s, n % 10);
    assert(s@ =~= before + decimal(n as nat));
}

/// Appends the decimal form of `i` to `s`, with a leading `-` when negative.
pub fn append_signed_decimal(s: &mut String, i: i64)
    ensures
        final(s)@ == old(s)@ + signed_decimal(i as int),
{
    let ghost before = s@;
    if i < 0 {
        proof {
            reveal_strlit("-");
        }
        s.append("-");
        let magnitude: u64 = (-(i as i128)) as u64;
        append_decimal(s, magnitude);
        assert(s@ =~= before + signed_decimal(i as int));
    } else {
        append_decimal(s, i as u64);
    }
}

/// The key prefix shared by every cache entry of a layer of an infrastructure.
pub fn get_layer_cache_prefix(layer_name: &str, infra_id: i64) -> (r: String)
    ensures
        r@ == layer_prefix(layer_name@, infra_id as int),
{
    let mut s = String::new();
    s.append("layer.");
    s.append(layer_name);
    s.append(".infra_");
    append_signed_decimal(&mut s, infra_id);
    assert(s@ =~= layer_prefix(layer_name@, infra_id as int));
    s
}

/// The key prefix shared by every cache entry of one view of a layer.
pub fn get_view_cache_prefix(layer_name: &str, infra_id: i64, view_name: &str) -> (r: String)
    ensures
        r@ == view_prefix(layer_name@, infra_id as int, view_name@),
{
    let mut s = get_layer_cache_prefix(layer_name, infra_id);
    s.append(".");
    s.append(view_name);
    s
}

/// The cache key of one tile under a view prefix.
pub fn get_cache_tile_key(view_prefix: &str, tile: &TileCoordinate) -> (r: String)
    ensures
        r@ == tile_key(view_prefix@, *tile),
{
    let mut s = String::from_str(view_prefix);
    s.append(".tile/");
    append_decimal(&mut s, tile.z);
    s.append("/");
    append_decimal(&mut s, tile.x);
    s.append("/");
    append_decimal(&mut s, tile.y);
    s
}

/// The glob pattern matching every key under `prefix`.
pub fn get_namespace_pattern(prefix: &str) -> (r: String)
    ensures
        r@ == namespace_pattern(prefix@),
{
    let mut s = String::from_str(prefix);
    s.append(".*");
    s
}

/// The key namespace nests: a tile key extends its view prefix, which
/// extends its layer prefix, each strictly.
pub proof fn lemma_keys_nest(layer: Seq<char>, infra_id: int, view: Seq<char>, t: TileCoordinate)
    ensures
        layer_prefix(layer, infra_id).is_prefix_of(view_prefix(layer, infra_id, view)),
        layer_prefix(layer, infra_id).len() < view_prefix(layer, infra_id, view).len(),
        view_prefix(layer, infra_id, view).is_prefix_of(tile_key(view_prefix(layer, infra_id, view), t)),
        view_prefix(layer, infra_id, view).len() < tile_key(view_prefix(layer, infra_id, view), t).len(),
{
    reveal_strlit(".");
    reveal_strlit(".tile/");
    let lp = layer_prefix(layer, infra_id);
    let vp = view_prefix(layer, infra_id, view);
    let tk = tile_key(vp, t);
    assert(vp =~= lp + ("."@ + view));
    assert(vp.subrange(0, lp.len() as int) =~= lp);
    assert(tk =~= vp + (".tile/"@ + decimal(t.z as nat) + "/"@ + decimal(t.x as nat) + "/"@
        + decimal(t.y as nat)));
    assert(tk.subrange(0, vp.len() as int) =~= vp);
}

proof fn lemma_digit_char(d: nat)
    requires
        d < 10,
    ensures
        '0' <= digit_char(d) <= '9',
        digit_char(d) as int == '0' as int + d,
{
}

proof fn lemma_decimal_digits(n: nat)
    ensures
        decimal(n).len() >= 1,
        forall|i: int| 0 <= i < decimal(n).len() ==> '0' <= #[trigger] decimal(n)[i] <= '9',
    decreases n,
{
    lemma_digit_char(n % 10);
    if n >= 10 {
        lemma_decimal_digits(n / 10);
    }
}

proof fn lemma_decimal_injective(a: nat, b: nat)
    requires
        decimal(a) == decimal(b),
    ensures
        a == b,
    decreases a,
{
    lemma_digit_char(a % 10);
    lemma_digit_char(b % 10);
    lemma_decimal_digits(a / 10);
    lemma_decimal_digits(b / 10);
    if a >= 10 && b >= 10 {
        assert(decimal(a) == decimal(a / 10).push(digit_char(a % 10)));
        assert(decimal(b) == decimal(b / 10).push(digit_char(b % 10)));
        assert(decimal(a).drop_last() =~= decimal(a / 10));
        assert(decimal(b).drop_last() =~= decimal(b / 10));
        lemma_decimal_injective(a / 10, b / 10);
        assert(decimal(a).last() == digit_char(a % 10));
        assert(decimal(b).last() == digit_char(b % 10));
        assert(digit_char(a % 10) == digit_char(b % 10));
        assert(a % 10 == b % 10);
        assert(a == 10 * (a / 10) + a % 10);
        assert(b == 10 * (b / 10) + b % 10);
    } else if a < 10 && b < 10 {
        lemma_digit_char(a);
        lemma_digit_char(b);
        assert(decimal(a) == seq![digit_char(a)]);
        assert(decimal(b) == seq![digit_char(b)]);
        assert(seq![digit_char(a)][0] == digit_char(a));
        assert(seq![digit_char(b)][0] == digit_char(b));
        assert(decimal(a)[0] == decimal(b)[0]);
        assert(digit_char(a) == digit_char(b));
    } else if a < 10 {
        assert(decimal(b) == decimal(b / 10).push(digit_char(b % 10)));
        assert(decimal(a).len() != decimal(b).len());
    } else {
        assert(decimal(a) == decimal(a / 10).push(digit_char(a % 10)));
        assert(decimal(a).len() != decimal(b).len());
    }
}

proof fn lemma_split_at_separator(a: Seq<char>, b: Seq<char>, c: Seq<char>, d: Seq<char>, sep: char)
    requires
        a + seq![sep] + b == c + seq![sep] + d,
        forall|i: int| 0 <= i < a.len() ==> #[trigger] a[i] != sep,
        forall|i: int| 0 <= i < c.len() ==> #[trigger] c[i] != sep,
    ensures
        a == c,
        b == d,
{
    let l = a + seq![sep] + b;
    let r = c + seq![sep] + d;
    if a.len() < c.len() {
        assert(l[a.len() as int] == sep);
        assert(r[a.len() as int] == c[a.len() as int]);
    } else if c.len() < a.len() {
        assert(r[c.len() as int] == sep);
        assert(l[c.len() as int] == a[c.len() as int]);
    } else {
        assert(a =~= l.subrange(0, a.len() as int));
        assert(c =~= r.subrange(0, c.len() as int));
        assert(b =~= l.subrange(a.len() as int + 1, l.len() as int));
        assert(d =~= r.subrange(c.len() as int + 1, r.len() as int));
    }
}

/// Distinct tiles under one prefix have distinct keys.
pub proof fn lemma_tile_keys_injective(prefix: Seq<char>, t1: TileCoordinate, t2: TileCoordinate)
    requires
        tile_key(prefix, t1) == tile_key(prefix, t2),
    ensures
        t1 == t2,
{
    reveal_strlit(".tile/");
    reveal_strlit("/");
    let head = prefix + ".tile/"@;
    let rest1 = decimal(t1.z as nat) + "/"@ + decimal(t1.x as nat) + "/"@ + decimal(t1.y as nat);
    let rest2 = decimal(t2.z as nat) + "/"@ + decimal(t2.x as nat) + "/"@ + decimal(t2.y as nat);
    assert(tile_key(prefix, t1) =~= head + rest1);
    assert(tile_key(prefix, t2) =~= head + rest2);
    assert(rest1 =~= (head + rest1).subrange(head.len() as int, (head + rest1).len() as int));
    assert(rest2 =~= (head + rest2).subrange(head.len() as int, (head + rest2).len() as int));
    lemma_decimal_digits(t1.z as nat);
    lemma_decimal_digits(t2.z as nat);
    lemma_decimal_digits(t1.x as nat);
    lemma_decimal_digits(t2.x as nat);
    let tail1 = decimal(t1.x as nat) + seq!['/'] + decimal(t1.y as nat);
    let tail2 = decimal(t2.x as nat) + seq!['/'] + decimal(t2.y as nat);
    assert(rest1 =~= decimal(t1.z as nat) + seq!['/'] + tail1);
    assert(rest2 =~= decimal(t2.z as nat) + seq!['/'] + tail2);
    lemma_split_at_separator(decimal(t1.z as nat), tail1, decimal(t2.z as nat), tail2, '/');
    lemma_split_at_separator(decimal(t1.x as nat), decimal(t1.y as nat), decimal(t2.x as nat), decimal(t2.y as nat), '/');
    lemma_decimal_injective(t1.z as nat, t2.z as nat);
    lemma_decimal_injective(t1.x as nat, t2.x as nat);
    lemma_decimal_injective(t1.y as nat, t2.y as nat);
}

/// A view's wildcard pattern matches none of a sibling view's tile keys,
/// as long as neither view name holds the `.` separator.
pub proof fn lemma_sibling_views_disjoint(layer: Seq<char>, infra_id: int, v1: Seq<char>, v2: Seq<char>, t: TileCoordinate)
    requires
        v1 != v2,
        forall|i: int| 0 <= i < v1.len() ==> #[trigger] v1[i] != '.',
        forall|i: int| 0 <= i < v2.len() ==> #[trigger] v2[i] != '.',
    ensures
        !(view_prefix(layer, infra_id, v1) + "."@).is_prefix_of(tile_key(view_prefix(layer, infra_id, v2), t)),
{
    reveal_strlit(".");
    reveal_strlit(".tile/");
    let base = layer_prefix(layer, infra_id) + "."@;
    let pattern = view_prefix(layer, infra_id, v1) + "."@;
    let key = tile_key(view_prefix(layer, infra_id, v2), t);
    let k = base.len() as int;
    assert(pattern =~= base + v1 + seq!['.']);
    let rest = ".tile/"@ + decimal(t.z as nat) + "/"@ + decimal(t.x as nat) + "/"@ + decimal(t.y as nat);
    assert(key =~= base + v2 + rest);
    assert(rest[0] == '.');
    if pattern.is_prefix_of(key) {
        if v1.len() < v2.len() {
            assert(pattern[k + v1.len()] == '.');
            assert(key[k + v1.len()] == v2[v1.len() as int]);
        } else if v2.len() < v1.len() {
            assert(key[k + v2.len()] == '.');
            assert(pattern[k + v2.len()] == v1[v2.len() as int]);
        } else {
            assert forall|i: int| 0 <= i < v1.len() implies v1[i] == v2[i] by {
                assert(pattern[k + i] == key[k + i]);
            }
            assert(v1 =~= v2);
        }
    }
}

} // verus!
