//! The canonical text determines the profile: two well-formed profiles with
//! the same text hold the same, field for field and node for node.
//!
//! So the text can be read back in one way only, and whatever two profiles
//! differ in, be it the order of two nodes, a link or a digit of the energy
//! state, their texts differ in it too.

use crate::digest::{lemma_hex_of_unique, profile_hash, sha256};
use crate::encoding::{
    bool_text, decimal, digit_char, escaped, escaped_text, joined, json_string, json_strings,
    lemma_hex_digit_unique, node_encoding, node_encodings, profile_encoding,
};
use crate::distance::{jaccard, lemma_jaccard_reordered};
use crate::model::{NodeView, OntoProfile, ProfileView};
use crate::scalar::{is_scalar_text, lemma_scalar_text_letters};
use vstd::prelude::*;
use vstd::utf8::{encode_utf8, encode_utf8_decode_utf8};

verus! {

/// What follows a common beginning is the same.
proof fn lemma_cancel_prefix(p: Seq<char>, x: Seq<char>, y: Seq<char>)
    requires
        p + x == p + y,
    ensures
        x == y,
{
    assert((p + x).len() == p.len() + x.len());
    assert((p + y).len() == p.len() + y.len());
    assert(x.len() == y.len());
    assert forall|i: int| 0 <= i < x.len() implies x[i] == y[i] by {
        assert((p + x)[p.len() + i] == x[i]);
        assert((p + y)[p.len() + i] == y[i]);
    }
    assert(x =~= y);
}

/// A text without the letter `d` ends where the first `d` stands.
proof fn lemma_stops_at(d: char, s: Seq<char>, t: Seq<char>, u: Seq<char>, v: Seq<char>)
    requires
        forall|i: int| 0 <= i < s.len() ==> s[i] != d,
        forall|i: int| 0 <= i < t.len() ==> t[i] != d,
        u.len() > 0 && u[0] == d,
        v.len() > 0 && v[0] == d,
        s + u == t + v,
    ensures
        s == t,
        u == v,
{
    if s.len() < t.len() {
        assert((s + u)[s.len() as int] == u[0]);
        assert((t + v)[s.len() as int] == t[s.len() as int]);
    }
    if t.len() < s.len() {
        assert((t + v)[t.len() as int] == v[0]);
        assert((s + u)[t.len() as int] == s[t.len() as int]);
    }
    assert forall|i: int| 0 <= i < s.len() implies s[i] == t[i] by {
        assert((s + u)[i] == s[i]);
        assert((t + v)[i] == t[i]);
    }
    assert(s =~= t);
    lemma_cancel_prefix(s, u, v);
}

/// What a letter is written as begins with a backslash or with the letter
/// itself, never with a quote.
proof fn lemma_escaped_shape(c: char)
    ensures
        escaped(c).len() >= 1,
        escaped(c)[0] != '"',
        escaped(c)[0] == '\\' || escaped(c) == seq![c],
{
}

/// What a letter is written as can be told from what follows it, and tells
/// the letter.
proof fn lemma_escaped_unique(c: char, d: char, u: Seq<char>, v: Seq<char>)
    requires
        escaped(c) + u == escaped(d) + v,
    ensures
        c == d,
        u == v,
{
    let l = escaped(c) + u;
    let r = escaped(d) + v;
    lemma_escaped_shape(c);
    lemma_escaped_shape(d);
    assert(l[0] == escaped(c)[0]);
    assert(r[0] == escaped(d)[0]);
    if escaped(c)[0] == '\\' && escaped(c).len() >= 2 {
        assert(escaped(d).len() >= 2);
        assert(l[1] == escaped(c)[1]);
        assert(r[1] == escaped(d)[1]);
        if escaped(c)[1] == 'u' {
            assert(escaped(c).len() == 6 && escaped(d).len() == 6);
            assert(l[4] == escaped(c)[4] && r[4] == escaped(d)[4]);
            assert(l[5] == escaped(c)[5] && r[5] == escaped(d)[5]);
            let m = (c as u32) as int;
            let n = (d as u32) as int;
            lemma_hex_digit_unique(m / 16, n / 16);
            lemma_hex_digit_unique(m % 16, n % 16);
            assert(m == n);
        }
        assert(c == d);
    } else {
        assert(escaped(c) == seq![c]);
        assert(escaped(d) == seq![d]);
        assert(c == d);
    }
    lemma_cancel_prefix(escaped(c), u, v);
}

/// The letters of a JSON string end at the first quote that no backslash
/// announces, and tell the string.
proof fn lemma_escaped_text_unique(x: Seq<char>, y: Seq<char>, u: Seq<char>, v: Seq<char>)
    requires
        escaped_text(x) + (seq!['"'] + u) == escaped_text(y) + (seq!['"'] + v),
    ensures
        x == y,
        u == v,
    decreases x.len(),
{
    let l = escaped_text(x) + (seq!['"'] + u);
    let r = escaped_text(y) + (seq!['"'] + v);
    if x.len() == 0 && y.len() == 0 {
        lemma_cancel_prefix(seq!['"'], u, v);
        assert(x =~= y);
    } else if x.len() == 0 {
        lemma_escaped_shape(y.first());
        assert(l[0] == '"');
        assert(r[0] == escaped(y.first())[0]);
    } else if y.len() == 0 {
        lemma_escaped_shape(x.first());
        assert(r[0] == '"');
        assert(l[0] == escaped(x.first())[0]);
    } else {
        let lu = escaped_text(x.drop_first()) + (seq!['"'] + u);
        let rv = escaped_text(y.drop_first()) + (seq!['"'] + v);
        assert(l =~= escaped(x.first()) + lu);
        assert(r =~= escaped(y.first()) + rv);
        lemma_escaped_unique(x.first(), y.first(), lu, rv);
        lemma_escaped_text_unique(x.drop_first(), y.drop_first(), u, v);
        assert(x =~= seq![x.first()] + x.drop_first());
        assert(y =~= seq![y.first()] + y.drop_first());
    }
}

/// A JSON string can be told from what follows it, and tells the string it
/// was written for.
pub proof fn lemma_json_string_unique(x: Seq<char>, y: Seq<char>, u: Seq<char>, v: Seq<char>)
    requires
        json_string(x) + u == json_string(y) + v,
    ensures
        x == y,
        u == v,
{
    let lu = escaped_text(x) + (seq!['"'] + u);
    let rv = escaped_text(y) + (seq!['"'] + v);
    assert(json_string(x) + u =~= seq!['"'] + lu);
    assert(json_string(y) + v =~= seq!['"'] + rv);
    lemma_cancel_prefix(seq!['"'], lu, rv);
    lemma_escaped_text_unique(x, y, u, v);
}

/// `true` and `false` can be told from what follows them, and from each
/// other.
proof fn lemma_bool_text_unique(a: bool, b: bool, u: Seq<char>, v: Seq<char>)
    requires
        bool_text(a) + u == bool_text(b) + v,
    ensures
        a == b,
        u == v,
{
    assert((bool_text(a) + u)[0] == bool_text(a)[0]);
    assert((bool_text(b) + v)[0] == bool_text(b)[0]);
    lemma_cancel_prefix(bool_text(a), u, v);
}

/// A decimal numeral is made of digits, of one digit for a number below ten
/// and of more for any other.
proof fn lemma_decimal_digits(n: nat)
    ensures
        decimal(n).len() >= 1,
        decimal(n).len() == 1 <==> n < 10,
        forall|i: int| 0 <= i < decimal(n).len() ==> '0' <= #[trigger] decimal(n)[i] <= '9',
    decreases n,
{
    if n >= 10 {
        lemma_decimal_digits(n / 10);
    }
}

/// A decimal numeral stands for one number only.
proof fn lemma_decimal_unique(m: nat, n: nat)
    requires
        decimal(m) == decimal(n),
    ensures
        m == n,
    decreases m,
{
    lemma_decimal_digits(m);
    lemma_decimal_digits(n);
    if m < 10 {
        assert(decimal(m)[0] == digit_char(m));
        assert(decimal(n)[0] == digit_char(n));
    } else {
        assert(decimal(m).drop_last() =~= decimal(m / 10));
        assert(decimal(n).drop_last() =~= decimal(n / 10));
        assert(decimal(m).last() == digit_char(m % 10));
        assert(decimal(n).last() == digit_char(n % 10));
        lemma_decimal_unique(m / 10, n / 10);
    }
}

/// A list of two items or more is its first item, a comma, and the list of
/// the others.
proof fn lemma_joined_front(items: Seq<Seq<char>>)
    requires
        items.len() >= 2,
    ensures
        joined(items) == items[0] + (seq![','] + joined(items.drop_first())),
    decreases items.len(),
{
    if items.len() == 2 {
        assert(joined(items.drop_last()) == items[0]);
        assert(joined(items.drop_first()) == items[1]);
        assert(joined(items) =~= items[0] + (seq![','] + joined(items.drop_first())));
    } else {
        lemma_joined_front(items.drop_last());
        assert(items.drop_first().drop_last() =~= items.drop_last().drop_first());
        assert(joined(items) =~= items[0] + (seq![','] + joined(items.drop_first())));
    }
}

/// The texts of the family can be told from what follows them, and none of
/// them begins with the bracket that closes a list.
spec fn tells_apart(family: spec_fn(Seq<char>) -> bool) -> bool {
    &&& forall|s: Seq<char>| #[trigger] family(s) ==> s.len() > 0 && s[0] != ']'
    &&& forall|s: Seq<char>, t: Seq<char>, u: Seq<char>, v: Seq<char>|
        family(s) && family(t) && (#[trigger] (s + u)) == (#[trigger] (t + v)) ==> s == t && u
            == v
}

/// A list of such texts ends at the bracket that closes it, and tells its
/// items.
proof fn lemma_joined_unique(
    family: spec_fn(Seq<char>) -> bool,
    xs: Seq<Seq<char>>,
    ys: Seq<Seq<char>>,
    u: Seq<char>,
    v: Seq<char>,
)
    requires
        tells_apart(family),
        forall|i: int| 0 <= i < xs.len() ==> family(#[trigger] xs[i]),
        forall|i: int| 0 <= i < ys.len() ==> family(#[trigger] ys[i]),
        joined(xs) + (seq![']'] + u) == joined(ys) + (seq![']'] + v),
    ensures
        xs == ys,
        u == v,
    decreases xs.len(),
{
    let l = joined(xs) + (seq![']'] + u);
    let r = joined(ys) + (seq![']'] + v);
    if xs.len() == 0 && ys.len() == 0 {
        lemma_cancel_prefix(seq![']'], u, v);
        assert(xs =~= ys);
    } else if xs.len() == 0 {
        lemma_joined_first(ys, seq![']'] + v);
        assert(family(ys[0]));
        assert(l[0] == ']');
    } else if ys.len() == 0 {
        lemma_joined_first(xs, seq![']'] + u);
        assert(family(xs[0]));
        assert(r[0] == ']');
    } else {
        let lu = list_rest(xs, u);
        let rv = list_rest(ys, v);
        lemma_joined_split(xs, u);
        lemma_joined_split(ys, v);
        assert(family(xs[0]) && family(ys[0]));
        assert(xs[0] + lu == ys[0] + rv);
        assert(xs[0] == ys[0] && lu == rv);
        assert(lu[0] == rv[0]);
        if xs.len() == 1 {
            lemma_cancel_prefix(seq![']'], u, v);
            assert(xs =~= ys);
        } else {
            let xt = xs.drop_first();
            let yt = ys.drop_first();
            lemma_cancel_prefix(seq![','], joined(xt) + (seq![']'] + u), joined(yt) + (seq![']'] + v));
            assert forall|i: int| 0 <= i < xt.len() implies family(#[trigger] xt[i]) by {
                assert(xt[i] == xs[i + 1]);
            }
            assert forall|i: int| 0 <= i < yt.len() implies family(#[trigger] yt[i]) by {
                assert(yt[i] == ys[i + 1]);
            }
            lemma_joined_unique(family, xt, yt, u, v);
            assert(xs =~= seq![xs[0]] + xt);
            assert(ys =~= seq![ys[0]] + yt);
        }
    }
}

/// What follows the first item of a list that is closed and then followed by
/// `u`.
spec fn list_rest(xs: Seq<Seq<char>>, u: Seq<char>) -> Seq<char> {
    if xs.len() == 1 {
        seq![']'] + u
    } else {
        seq![','] + (joined(xs.drop_first()) + (seq![']'] + u))
    }
}

/// A list with an item, closed and followed by `u`, is its first item and
/// what follows that.
proof fn lemma_joined_split(xs: Seq<Seq<char>>, u: Seq<char>)
    requires
        xs.len() >= 1,
    ensures
        joined(xs) + (seq![']'] + u) == xs[0] + list_rest(xs, u),
        list_rest(xs, u).len() > 0,
        list_rest(xs, u)[0] == (if xs.len() == 1 {
            ']'
        } else {
            ','
        }),
{
    if xs.len() >= 2 {
        lemma_joined_front(xs);
        assert(joined(xs) + (seq![']'] + u) =~= xs[0] + list_rest(xs, u));
    }
}

/// A list with an item, followed by `rest`, begins as its first item does.
proof fn lemma_joined_first(xs: Seq<Seq<char>>, rest: Seq<char>)
    requires
        xs.len() >= 1,
        xs[0].len() > 0,
    ensures
        (joined(xs) + rest)[0] == xs[0][0],
{
    if xs.len() >= 2 {
        lemma_joined_front(xs);
    }
}

/// `s` is a JSON string.
spec fn is_json_string(s: Seq<char>) -> bool {
    exists|x: Seq<char>| s == json_string(x)
}

/// `s` is the canonical text of a well-formed node.
spec fn is_node_encoding(s: Seq<char>) -> bool {
    exists|n: NodeView| n.well_formed() && s == node_encoding(n)
}

/// JSON strings can be told from what follows them.
proof fn lemma_json_strings_tell_apart()
    ensures
        tells_apart(|s: Seq<char>| is_json_string(s)),
{
    let family = |s: Seq<char>| is_json_string(s);
    assert forall|s: Seq<char>| #[trigger] family(s) implies s.len() > 0 && s[0] != ']' by {
        let x = choose|x: Seq<char>| s == json_string(x);
        assert(json_string(x)[0] == '"');
    }
    assert forall|s: Seq<char>, t: Seq<char>, u: Seq<char>, v: Seq<char>|
        family(s) && family(t) && (#[trigger] (s + u)) == (#[trigger] (t + v)) implies s == t && u
        == v by {
        let x = choose|x: Seq<char>| s == json_string(x);
        let y = choose|y: Seq<char>| t == json_string(y);
        lemma_json_string_unique(x, y, u, v);
    }
}

/// A list of JSON strings tells the strings it was written for.
proof fn lemma_json_strings_unique(xs: Seq<Seq<char>>, ys: Seq<Seq<char>>)
    requires
        json_strings(xs) == json_strings(ys),
    ensures
        xs == ys,
{
    assert(json_strings(xs).len() == xs.len());
    assert(json_strings(ys).len() == ys.len());
    assert forall|i: int| 0 <= i < xs.len() implies xs[i] == ys[i] by {
        assert(json_strings(xs)[i] == json_strings(ys)[i]);
        assert(json_string(xs[i]) + Seq::<char>::empty() =~= json_string(xs[i]));
        assert(json_string(ys[i]) + Seq::<char>::empty() =~= json_string(ys[i]));
        lemma_json_string_unique(xs[i], ys[i], Seq::<char>::empty(), Seq::<char>::empty());
    }
    assert(xs =~= ys);
}

/// No letter of a numeral is a comma.
proof fn lemma_scalar_text_has_no_comma(s: Seq<char>)
    requires
        is_scalar_text(s),
    ensures
        forall|i: int| 0 <= i < s.len() ==> s[i] != ',',
{
    assert forall|i: int| 0 <= i < s.len() implies s[i] != ',' by {
        lemma_scalar_text_letters(s, i);
    }
}

/// The canonical text of a node, followed by `u`, from its stability on.
spec fn node_tail(n: NodeView, u: Seq<char>) -> Seq<char> {
    n.stability + (",\"links\":["@ + (joined(json_strings(n.links)) + (seq![']'] + (seq!['}'] + u))))
}

/// The canonical text of a node, followed by `u`, piece by piece.
proof fn lemma_node_encoding_pieces(n: NodeView, u: Seq<char>)
    ensures
        node_encoding(n) + u == "{\"id\":"@ + (json_string(n.id) + (",\"rational\":"@ + (bool_text(
            n.rational,
        ) + (",\"content\":"@ + (json_string(n.content) + (",\"stability\":"@ + node_tail(n, u))))))),
        (node_encoding(n) + u)[0] == '{',
{
    reveal_strlit("]}");
    reveal_strlit("{\"id\":");
    assert("]}"@ + u =~= seq![']'] + (seq!['}'] + u));
    assert(node_encoding(n) + u =~= "{\"id\":"@ + (json_string(n.id) + (",\"rational\":"@ + (bool_text(
        n.rational,
    ) + (",\"content\":"@ + (json_string(n.content) + (",\"stability\":"@ + node_tail(n, u))))))));
}

/// The canonical text of a well-formed node can be told from what follows
/// it, and tells the node: its identifier, its flag, its content, its
/// stability, and its links in their order.
pub proof fn lemma_node_encoding_unique(n: NodeView, m: NodeView, u: Seq<char>, v: Seq<char>)
    requires
        n.well_formed(),
        m.well_formed(),
        node_encoding(n) + u == node_encoding(m) + v,
    ensures
        n == m,
        u == v,
{
    lemma_node_encoding_pieces(n, u);
    lemma_node_encoding_pieces(m, v);
    let n7 = node_tail(n, u);
    let m7 = node_tail(m, v);
    let n6 = ",\"stability\":"@ + n7;
    let m6 = ",\"stability\":"@ + m7;
    let n5 = json_string(n.content) + n6;
    let m5 = json_string(m.content) + m6;
    let n4 = ",\"content\":"@ + n5;
    let m4 = ",\"content\":"@ + m5;
    let n3 = bool_text(n.rational) + n4;
    let m3 = bool_text(m.rational) + m4;
    let n2 = ",\"rational\":"@ + n3;
    let m2 = ",\"rational\":"@ + m3;
    let n1 = json_string(n.id) + n2;
    let m1 = json_string(m.id) + m2;
    lemma_cancel_prefix("{\"id\":"@, n1, m1);
    lemma_json_string_unique(n.id, m.id, n2, m2);
    lemma_cancel_prefix(",\"rational\":"@, n3, m3);
    lemma_bool_text_unique(n.rational, m.rational, n4, m4);
    lemma_cancel_prefix(",\"content\":"@, n5, m5);
    lemma_json_string_unique(n.content, m.content, n6, m6);
    lemma_cancel_prefix(",\"stability\":"@, n7, m7);

    let n10 = seq![']'] + (seq!['}'] + u);
    let m10 = seq![']'] + (seq!['}'] + v);
    let n9 = joined(json_strings(n.links)) + n10;
    let m9 = joined(json_strings(m.links)) + m10;
    let n8 = ",\"links\":["@ + n9;
    let m8 = ",\"links\":["@ + m9;
    reveal_strlit(",\"links\":[");
    lemma_scalar_text_has_no_comma(n.stability);
    lemma_scalar_text_has_no_comma(m.stability);
    lemma_stops_at(',', n.stability, m.stability, n8, m8);
    lemma_cancel_prefix(",\"links\":["@, n9, m9);
    lemma_json_strings_tell_apart();
    let family = |s: Seq<char>| is_json_string(s);
    assert forall|i: int| 0 <= i < json_strings(n.links).len() implies family(
        #[trigger] json_strings(n.links)[i],
    ) by {
        assert(json_strings(n.links)[i] == json_string(n.links[i]));
    }
    assert forall|i: int| 0 <= i < json_strings(m.links).len() implies family(
        #[trigger] json_strings(m.links)[i],
    ) by {
        assert(json_strings(m.links)[i] == json_string(m.links[i]));
    }
    lemma_joined_unique(
        family,
        json_strings(n.links),
        json_strings(m.links),
        seq!['}'] + u,
        seq!['}'] + v,
    );
    lemma_json_strings_unique(n.links, m.links);
    lemma_cancel_prefix(seq!['}'], u, v);
}

/// The canonical texts of well-formed nodes can be told from what follows
/// them.
proof fn lemma_node_encodings_tell_apart()
    ensures
        tells_apart(|s: Seq<char>| is_node_encoding(s)),
{
    let family = |s: Seq<char>| is_node_encoding(s);
    assert forall|s: Seq<char>| #[trigger] family(s) implies s.len() > 0 && s[0] != ']' by {
        let n = choose|n: NodeView| n.well_formed() && s == node_encoding(n);
        lemma_node_encoding_pieces(n, Seq::<char>::empty());
        assert(node_encoding(n) + Seq::<char>::empty() =~= node_encoding(n));
    }
    assert forall|s: Seq<char>, t: Seq<char>, u: Seq<char>, v: Seq<char>|
        family(s) && family(t) && (#[trigger] (s + u)) == (#[trigger] (t + v)) implies s == t && u
        == v by {
        let n = choose|n: NodeView| n.well_formed() && s == node_encoding(n);
        let m = choose|m: NodeView| m.well_formed() && t == node_encoding(m);
        lemma_node_encoding_unique(n, m, u, v);
    }
}

/// A list of canonical texts of well-formed nodes tells the nodes.
proof fn lemma_node_encodings_unique(xs: Seq<NodeView>, ys: Seq<NodeView>)
    requires
        forall|i: int| 0 <= i < xs.len() ==> (#[trigger] xs[i]).well_formed(),
        forall|i: int| 0 <= i < ys.len() ==> (#[trigger] ys[i]).well_formed(),
        node_encodings(xs) == node_encodings(ys),
    ensures
        xs == ys,
{
    assert(node_encodings(xs).len() == xs.len());
    assert(node_encodings(ys).len() == ys.len());
    assert forall|i: int| 0 <= i < xs.len() implies xs[i] == ys[i] by {
        assert(node_encodings(xs)[i] == node_encodings(ys)[i]);
        assert(xs[i].well_formed() && ys[i].well_formed());
        assert(node_encoding(xs[i]) + Seq::<char>::empty() =~= node_encoding(xs[i]));
        assert(node_encoding(ys[i]) + Seq::<char>::empty() =~= node_encoding(ys[i]));
        lemma_node_encoding_unique(xs[i], ys[i], Seq::<char>::empty(), Seq::<char>::empty());
    }
    assert(xs =~= ys);
}

/// The nodes of a well-formed profile, written as a list that is closed and
/// then followed by `u`, can be told from `u`, and tell the nodes.
proof fn lemma_node_list_unique(a: ProfileView, b: ProfileView, u: Seq<char>, v: Seq<char>)
    requires
        a.well_formed(),
        b.well_formed(),
        joined(node_encodings(a.nodes)) + (seq![']'] + u) == joined(node_encodings(b.nodes)) + (
        seq![']'] + v),
    ensures
        a.nodes == b.nodes,
        u == v,
{
    lemma_node_encodings_tell_apart();
    let family = |s: Seq<char>| is_node_encoding(s);
    assert forall|i: int| 0 <= i < node_encodings(a.nodes).len() implies family(
        #[trigger] node_encodings(a.nodes)[i],
    ) by {
        assert(a.nodes[i].well_formed());
        assert(node_encodings(a.nodes)[i] == node_encoding(a.nodes[i]));
    }
    assert forall|i: int| 0 <= i < node_encodings(b.nodes).len() implies family(
        #[trigger] node_encodings(b.nodes)[i],
    ) by {
        assert(b.nodes[i].well_formed());
        assert(node_encodings(b.nodes)[i] == node_encoding(b.nodes[i]));
    }
    lemma_joined_unique(family, node_encodings(a.nodes), node_encodings(b.nodes), u, v);
    lemma_node_encodings_unique(a.nodes, b.nodes);
}

/// The canonical text of a profile from behind the list of its nodes on.
spec fn profile_tail(p: ProfileView) -> Seq<char> {
    ",\"energy_state\":"@ + (p.energy_state + (",\"version\":"@ + (decimal(p.version as nat)
        + seq!['}'])))
}

/// The canonical text of a profile, piece by piece.
proof fn lemma_profile_encoding_pieces(p: ProfileView)
    ensures
        profile_encoding(p) == "{\"nodes\":["@ + (joined(node_encodings(p.nodes)) + (seq![']']
            + profile_tail(p))),
{
    reveal_strlit("],\"energy_state\":");
    reveal_strlit(",\"energy_state\":");
    reveal_strlit("}");
    assert("],\"energy_state\":"@ =~= seq![']'] + ",\"energy_state\":"@);
    assert("}"@ =~= seq!['}']);
    assert(profile_encoding(p) =~= "{\"nodes\":["@ + (joined(node_encodings(p.nodes)) + (seq![']']
        + profile_tail(p))));
}

/// What follows the nodes in the canonical text of a well-formed profile
/// tells the energy state and the version.
proof fn lemma_profile_tail_unique(a: ProfileView, b: ProfileView)
    requires
        a.well_formed(),
        b.well_formed(),
        profile_tail(a) == profile_tail(b),
    ensures
        a.energy_state == b.energy_state,
        a.version == b.version,
{
    reveal_strlit(",\"version\":");
    let close = seq!['}'];
    let a5 = decimal(a.version as nat) + close;
    let b5 = decimal(b.version as nat) + close;
    let a4 = ",\"version\":"@ + a5;
    let b4 = ",\"version\":"@ + b5;
    let a3 = a.energy_state + a4;
    let b3 = b.energy_state + b4;
    lemma_cancel_prefix(",\"energy_state\":"@, a3, b3);
    lemma_scalar_text_has_no_comma(a.energy_state);
    lemma_scalar_text_has_no_comma(b.energy_state);
    lemma_stops_at(',', a.energy_state, b.energy_state, a4, b4);
    lemma_cancel_prefix(",\"version\":"@, a5, b5);
    lemma_decimal_digits(a.version as nat);
    lemma_decimal_digits(b.version as nat);
    lemma_stops_at('}', decimal(a.version as nat), decimal(b.version as nat), close, close);
    lemma_decimal_unique(a.version as nat, b.version as nat);
}

/// The canonical text of a well-formed profile tells the profile: two
/// well-formed profiles with the same text hold the same nodes in the same
/// order, the same energy state and the same version.
pub proof fn lemma_profile_encoding_unique(a: ProfileView, b: ProfileView)
    requires
        a.well_formed(),
        b.well_formed(),
        profile_encoding(a) == profile_encoding(b),
    ensures
        a == b,
{
    lemma_profile_encoding_pieces(a);
    lemma_profile_encoding_pieces(b);
    let a1 = joined(node_encodings(a.nodes)) + (seq![']'] + profile_tail(a));
    let b1 = joined(node_encodings(b.nodes)) + (seq![']'] + profile_tail(b));
    lemma_cancel_prefix("{\"nodes\":["@, a1, b1);
    lemma_node_list_unique(a, b, profile_tail(a), profile_tail(b));
    lemma_profile_tail_unique(a, b);
}

/// The profile that a canonical text was written for, where there is one.
pub open spec fn decoded(text: Seq<char>) -> ProfileView {
    choose|p: ProfileView| p.well_formed() && profile_encoding(p) == text
}

/// Reading the canonical text of a profile gives the profile back, and with
/// it the same hash.
pub proof fn lemma_encoding_round_trip(a: OntoProfile)
    requires
        a@.well_formed(),
    ensures
        decoded(profile_encoding(a@)) == a@,
        profile_hash(decoded(profile_encoding(a@))) == profile_hash(a@),
{
    let back = decoded(profile_encoding(a@));
    assert(back.well_formed() && profile_encoding(back) == profile_encoding(a@));
    lemma_profile_encoding_unique(back, a@);
}

/// Two profiles that differ in anything are hashed from different bytes.
pub proof fn lemma_hash_input_unique(a: OntoProfile, b: OntoProfile)
    requires
        a@.well_formed(),
        b@.well_formed(),
        a@ != b@,
    ensures
        profile_encoding(a@) != profile_encoding(b@),
        encode_utf8(profile_encoding(a@)) != encode_utf8(profile_encoding(b@)),
{
    if profile_encoding(a@) == profile_encoding(b@) {
        lemma_profile_encoding_unique(a@, b@);
    }
    encode_utf8_decode_utf8(profile_encoding(a@));
    encode_utf8_decode_utf8(profile_encoding(b@));
}

/// Two profiles that differ in anything have the same hash only where
/// SHA-256 gives two different sequences of bytes the same digest.
pub proof fn lemma_same_hash_is_a_collision(a: OntoProfile, b: OntoProfile)
    requires
        a@.well_formed(),
        b@.well_formed(),
        a@ != b@,
        profile_hash(a@) == profile_hash(b@),
    ensures
        encode_utf8(profile_encoding(a@)) != encode_utf8(profile_encoding(b@)),
        sha256(encode_utf8(profile_encoding(a@))) == sha256(encode_utf8(profile_encoding(b@))),
{
    lemma_hash_input_unique(a, b);
    lemma_hex_of_unique(
        sha256(encode_utf8(profile_encoding(a@))),
        sha256(encode_utf8(profile_encoding(b@))),
    );
}

/// Two profiles that hold the same nodes in another order are hashed from
/// different bytes, and are at distance zero from each other.
pub proof fn lemma_reordered_nodes(a: OntoProfile, b: OntoProfile)
    requires
        a@.well_formed(),
        b@.well_formed(),
        a@.nodes.to_multiset() == b@.nodes.to_multiset(),
        a@.nodes != b@.nodes,
    ensures
        encode_utf8(profile_encoding(a@)) != encode_utf8(profile_encoding(b@)),
        jaccard(a@, b@).is_zero(),
{
    lemma_hash_input_unique(a, b);
    lemma_jaccard_reordered(a, b);
}

} // verus!
