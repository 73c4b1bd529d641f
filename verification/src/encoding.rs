//! The canonical text of a profile: compact JSON, the fields in the order in
//! which the types declare them, the nodes in the order in which the profile
//! holds them.
//!
//! The text is what the content hash is taken of, so it is fixed to the
//! letter: no space, no line break, numbers as the scalars write them.

use crate::model::{NodeView, OntoNode, OntoProfile, ProfileView};
use vstd::prelude::*;
use vstd::string::StringExecFns;

verus! {

/// The digit for `n` below sixteen, in lower case.
pub open spec fn hex_digit(n: int) -> char {
    seq!['0', '1', '2', '3', '4', '5', '6', '7', '8', '9', 'a', 'b', 'c', 'd', 'e', 'f'][n]
}

/// A hexadecimal digit stands for one number only.
pub proof fn lemma_hex_digit_unique(m: int, n: int)
    requires
        0 <= m < 16,
        0 <= n < 16,
        hex_digit(m) == hex_digit(n),
    ensures
        m == n,
{
}

/// How a letter stands inside a JSON string.
///
/// A quote and a backslash get a backslash in front. The five control
/// characters that have a short name are written by it, the other control
/// characters below the space by their number, in four hexadecimal digits.
/// Every other letter stands for itself.
pub open spec fn escaped(c: char) -> Seq<char> {
    if c == '"' {
        seq!['\\', '"']
    } else if c == '\\' {
        seq!['\\', '\\']
    } else if c == '\u{8}' {
        seq!['\\', 'b']
    } else if c == '\t' {
        seq!['\\', 't']
    } else if c == '\n' {
        seq!['\\', 'n']
    } else if c == '\u{c}' {
        seq!['\\', 'f']
    } else if c == '\r' {
        seq!['\\', 'r']
    } else if (c as u32) < 0x20 {
        seq!['\\', 'u', '0', '0', hex_digit((c as u32) as int / 16), hex_digit((c as u32) as int % 16)]
    } else {
        seq![c]
    }
}

/// The letters of `s`, each as it stands inside a JSON string.
pub open spec fn escaped_text(s: Seq<char>) -> Seq<char>
    decreases s.len(),
{
    if s.len() == 0 {
        Seq::<char>::empty()
    } else {
        escaped(s.first()) + escaped_text(s.drop_first())
    }
}

/// `s` as a JSON string: its letters between two quotes.
pub open spec fn json_string(s: Seq<char>) -> Seq<char> {
    seq!['"'] + escaped_text(s) + seq!['"']
}

/// `true` or `false`.
pub open spec fn bool_text(b: bool) -> Seq<char> {
    if b {
        seq!['t', 'r', 'u', 'e']
    } else {
        seq!['f', 'a', 'l', 's', 'e']
    }
}

/// The digit for `d` below ten.
pub open spec fn digit_char(d: nat) -> char {
    seq!['0', '1', '2', '3', '4', '5', '6', '7', '8', '9'][d as int]
}

/// `n` in decimal digits, without leading zeros.
pub open spec fn decimal(n: nat) -> Seq<char>
    decreases n,
{
    if n < 10 {
        seq![digit_char(n)]
    } else {
        decimal(n / 10).push(digit_char(n % 10))
    }
}

/// The items one after the other, with a comma between two of them.
pub open spec fn joined(items: Seq<Seq<char>>) -> Seq<char>
    decreases items.len(),
{
    if items.len() == 0 {
        Seq::<char>::empty()
    } else if items.len() == 1 {
        items[0]
    } else {
        joined(items.drop_last()) + seq![','] + items.last()
    }
}

/// Each of the strings as a JSON string.
pub open spec fn json_strings(texts: Seq<Seq<char>>) -> Seq<Seq<char>> {
    Seq::new(texts.len(), |i: int| json_string(texts[i]))
}

/// The canonical text of a node.
pub open spec fn node_encoding(n: NodeView) -> Seq<char> {
    "{\"id\":"@ + json_string(n.id) + ",\"rational\":"@ + bool_text(n.rational) + ",\"content\":"@
        + json_string(n.content) + ",\"stability\":"@ + n.stability + ",\"links\":["@ + joined(
        json_strings(n.links),
    ) + "]}"@
}

/// The canonical text of each of the nodes.
pub open spec fn node_encodings(nodes: Seq<NodeView>) -> Seq<Seq<char>> {
    Seq::new(nodes.len(), |i: int| node_encoding(nodes[i]))
}

/// The canonical text of a profile.
pub open spec fn profile_encoding(p: ProfileView) -> Seq<char> {
    "{\"nodes\":["@ + joined(node_encodings(p.nodes)) + "],\"energy_state\":"@ + p.energy_state
        + ",\"version\":"@ + decimal(p.version as nat) + "}"@
}

/// `s` as a JSON string, as `serde_json::to_string` writes a `str`.
///
/// Not proved: that serde_json puts the letters between two quotes and writes
/// each of them as `escaped` says. Its escape table names the quote, the
/// backslash and the bytes below the space, and no other byte; its writer
/// puts the short names for backspace, tab, line feed, form feed and carriage
/// return, and `\u00` with two lower-case hexadecimal digits for the rest of
/// them. Writing a `str` into memory has no way to fail, so the result is
/// always there.
#[verifier::external_body]
fn json_string_literal(s: &str) -> (text: String)
    ensures
        text@ == json_string(s@),
{
    serde_json::to_string(s).unwrap()
}

/// The numeral of a digit.
fn digit_str(d: u32) -> (text: &'static str)
    requires
        d < 10,
    ensures
        text@ == seq![digit_char(d as nat)],
{
    let text = if d == 0 {
        "0"
    } else if d == 1 {
        "1"
    } else if d == 2 {
        "2"
    } else if d == 3 {
        "3"
    } else if d == 4 {
        "4"
    } else if d == 5 {
        "5"
    } else if d == 6 {
        "6"
    } else if d == 7 {
        "7"
    } else if d == 8 {
        "8"
    } else {
        "9"
    };
    proof {
        reveal_strlit("0");
        reveal_strlit("1");
        reveal_strlit("2");
        reveal_strlit("3");
        reveal_strlit("4");
        reveal_strlit("5");
        reveal_strlit("6");
        reveal_strlit("7");
        reveal_strlit("8");
        reveal_strlit("9");
        assert(text@ =~= seq![digit_char(d as nat)]);
    }
    text
}

/// Writes `n` in decimal behind what `out` holds.
fn push_decimal(out: &mut String, n: u32)
    ensures
        final(out)@ == old(out)@ + decimal(n as nat),
    decreases n,
{
    if n >= 10 {
        push_decimal(out, n / 10);
    }
    out.append(digit_str(n % 10));
    proof {
        if n >= 10 {
            assert(old(out)@ + decimal(n as nat / 10) + seq![digit_char(n as nat % 10)] =~= old(
                out,
            )@ + decimal(n as nat));
        }
    }
}

/// A list grown by one item is the list, a comma where it was not empty, and
/// the item.
proof fn lemma_joined_next(items: Seq<Seq<char>>, n: int)
    requires
        0 <= n < items.len(),
    ensures
        joined(items.take(n + 1)) == if n == 0 {
            items[n]
        } else {
            joined(items.take(n)) + seq![','] + items[n]
        },
{
    assert(items.take(n + 1).drop_last() =~= items.take(n));
    assert(items.take(n + 1).last() == items[n]);
}

impl OntoNode {
    /// The canonical text of the node.
    pub fn encode(&self) -> (text: String)
        ensures
            text@ == node_encoding(self@),
            self@.well_formed(),
    {
        let mut text = String::new();
        text.append("{\"id\":");
        text.append(json_string_literal(self.id.as_str()).as_str());
        text.append(",\"rational\":");
        if self.rational {
            text.append("true");
        } else {
            text.append("false");
        }
        proof {
            reveal_strlit("true");
            reveal_strlit("false");
            assert("true"@ =~= bool_text(true));
            assert("false"@ =~= bool_text(false));
        }
        text.append(",\"content\":");
        text.append(json_string_literal(self.content.as_str()).as_str());
        text.append(",\"stability\":");
        text.append(self.stability.as_str());
        text.append(",\"links\":[");
        let ghost head = text@;
        let ghost links = json_strings(self@.links);
        let mut i: usize = 0;
        assert(links.take(0) =~= Seq::<Seq<char>>::empty());
        assert(text@ =~= head + joined(links.take(0)));
        while i < self.links.len()
            invariant
                i <= self.links.len(),
                links == json_strings(self@.links),
                links.len() == self.links.len(),
                text@ == head + joined(links.take(i as int)),
            decreases self.links.len() - i,
        {
            proof {
                lemma_joined_next(links, i as int);
            }
            if i > 0 {
                text.append(",");
                proof {
                    reveal_strlit(",");
                    assert(","@ =~= seq![',']);
                }
            }
            text.append(json_string_literal(self.links[i].as_str()).as_str());
            i += 1;
            assert(text@ =~= head + joined(links.take(i as int)));
        }
        assert(links.take(links.len() as int) =~= links);
        text.append("]}");
        assert(text@ =~= node_encoding(self@));
        text
    }
}

impl OntoProfile {
    /// The canonical text of the profile: what its content hash is taken of.
    pub fn encode(&self) -> (text: String)
        ensures
            text@ == profile_encoding(self@),
            self@.well_formed(),
    {
        let mut text = String::new();
        text.append("{\"nodes\":[");
        let ghost head = text@;
        let ghost nodes = node_encodings(self@.nodes);
        let mut i: usize = 0;
        assert(nodes.take(0) =~= Seq::<Seq<char>>::empty());
        assert(text@ =~= head + joined(nodes.take(0)));
        while i < self.nodes.len()
            invariant
                i <= self.nodes.len(),
                nodes == node_encodings(self@.nodes),
                nodes.len() == self.nodes.len(),
                text@ == head + joined(nodes.take(i as int)),
                forall|j: int| 0 <= j < i ==> (#[trigger] self@.nodes[j]).well_formed(),
            decreases self.nodes.len() - i,
        {
            proof {
                lemma_joined_next(nodes, i as int);
            }
            if i > 0 {
                text.append(",");
                proof {
                    reveal_strlit(",");
                    assert(","@ =~= seq![',']);
                }
            }
            text.append(self.nodes[i].encode().as_str());
            i += 1;
            assert(text@ =~= head + joined(nodes.take(i as int)));
        }
        assert(nodes.take(nodes.len() as int) =~= nodes);
        text.append("],\"energy_state\":");
        text.append(self.energy_state.as_str());
        text.append(",\"version\":");
        push_decimal(&mut text, self.version);
        text.append("}");
        assert(text@ =~= profile_encoding(self@));
        text
    }
}

} // verus!
