//! Names of the files that hold the packets of a flow.
//!
//! A flow from `a.b.c.d` to `e.f.g.h` is stored in the directory of the
//! output under the name `flow-a.b.c.d-e.f.g.h.pcap`.

use vstd::prelude::*;
use vstd::string::StringExecFns;
use crate::flow::FlowKey;

verus! {

/// The character of a decimal digit.
pub open spec fn digit_char(d: int) -> char {
    if d == 0 {
        '0'
    } else if d == 1 {
        '1'
    } else if d == 2 {
        '2'
    } else if d == 3 {
        '3'
    } else if d == 4 {
        '4'
    } else if d == 5 {
        '5'
    } else if d == 6 {
        '6'
    } else if d == 7 {
        '7'
    } else if d == 8 {
        '8'
    } else {
        '9'
    }
}

/// An octet in decimal, without leading zeros.
pub open spec fn octet_text(n: u8) -> Seq<char> {
    if n >= 100 {
        seq![digit_char(n as int / 100), digit_char(n as int / 10 % 10), digit_char(n as int % 10)]
    } else if n >= 10 {
        seq![digit_char(n as int / 10), digit_char(n as int % 10)]
    } else {
        seq![digit_char(n as int)]
    }
}

/// The octet of `address` at `index`, the most significant octet first.
pub open spec fn octet(address: u32, index: int) -> u8 {
    if index == 0 {
        (address / 0x100_0000) as u8
    } else if index == 1 {
        (address / 0x1_0000 % 256) as u8
    } else if index == 2 {
        (address / 0x100 % 256) as u8
    } else {
        (address % 256) as u8
    }
}

/// Four texts joined by dots.
pub open spec fn joined(t0: Seq<char>, t1: Seq<char>, t2: Seq<char>, t3: Seq<char>) -> Seq<char> {
    t0 + seq!['.'] + t1 + seq!['.'] + t2 + seq!['.'] + t3
}

/// An address in dotted decimal.
#[verifier::opaque]
pub open spec fn dotted(address: u32) -> Seq<char> {
    joined(
        octet_text(octet(address, 0)),
        octet_text(octet(address, 1)),
        octet_text(octet(address, 2)),
        octet_text(octet(address, 3)),
    )
}

/// The path of the file of flow `key` in the directory `dir`.
pub open spec fn flow_file_name(dir: Seq<char>, key: FlowKey) -> Seq<char> {
    dir + seq!['/', 'f', 'l', 'o', 'w', '-'] + dotted(key.source) + seq!['-'] + dotted(
        key.destination,
    ) + seq!['.', 'p', 'c', 'a', 'p']
}

/// The text of one decimal digit.
fn digit_text(d: u8) -> (text: &'static str)
    requires
        d < 10,
    ensures
        text@ == seq![digit_char(d as int)],
{
    proof {
        reveal_strlit("0");
        reveal_strlit("1");
        reveal_strlit("2");
        reveal_strlit("3");
        reveal_strlit("4");
        reveal_strlit("5");
        reveal_strlit("6");
        reveal_strlit("7");
        reveal_strlit("8");
        reveal_strlit("9");
    }
    let text = if d == 0 {
        "0"
    } else if d == 1 {
        "1"
    } else if d == 2 {
        "2"
    } else if d == 3 {
        "3"
    } else if d == 4 {
        "4"
    } else if d == 5 {
        "5"
    } else if d == 6 {
        "6"
    } else if d == 7 {
        "7"
    } else if d == 8 {
        "8"
    } else {
        "9"
    };
    assert(text@ =~= seq![digit_char(d as int)]);
    text
}

/// Appends an octet in decimal.
fn push_octet(path: &mut String, n: u8)
    ensures
        final(path)@ == old(path)@ + octet_text(n),
{
    if n >= 100 {
        path.append(digit_text(n / 100));
    }
    if n >= 10 {
        path.append(digit_text(n / 10 % 10));
    }
    path.append(digit_text(n % 10));
    assert(path@ =~= old(path)@ + octet_text(n));
}

/// Appends an address in dotted decimal.
fn push_dotted(path: &mut String, address: u32)
    ensures
        final(path)@ == old(path)@ + dotted(address),
{
    proof {
        reveal_strlit(".");
        reveal(dotted);
    }
    push_octet(path, (address / 0x100_0000) as u8);
    path.append(".");
    push_octet(path, (address / 0x1_0000 % 256) as u8);
    path.append(".");
    push_octet(path, (address / 0x100 % 256) as u8);
    path.append(".");
    push_octet(path, (address % 256) as u8);
    assert(path@ =~= old(path)@ + dotted(address));
}

/// The path of the file of flow `key` in the directory `dir`; see
/// [`flow_file_name`].
pub fn flow_path(dir: &str, key: FlowKey) -> (path: String)
    ensures
        path@ == flow_file_name(dir@, key),
{
    proof {
        reveal_strlit("/flow-");
        reveal_strlit("-");
        reveal_strlit(".pcap");
    }
    let mut path = String::from_str(dir);
    path.append("/flow-");
    push_dotted(&mut path, key.source);
    path.append("-");
    push_dotted(&mut path, key.destination);
    path.append(".pcap");
    assert(path@ =~= flow_file_name(dir@, key));
    path
}

// ---------------------------------------------------------------------------
// Laws
// ---------------------------------------------------------------------------

/// Whether `c` does not occur in `text`.
pub open spec fn free_of(text: Seq<char>, c: char) -> bool {
    forall|i: int| 0 <= i < text.len() ==> text[i] != c
}

/// A text that is split at the first occurrence of a separator is split in
/// one way only.
proof fn lemma_split_at_separator(
    a1: Seq<char>,
    a2: Seq<char>,
    b1: Seq<char>,
    b2: Seq<char>,
    sep: char,
)
    requires
        a1 + seq![sep] + a2 == b1 + seq![sep] + b2,
        free_of(a1, sep),
        free_of(b1, sep),
    ensures
        a1 == b1,
        a2 == b2,
{
    let a = a1 + seq![sep] + a2;
    let b = b1 + seq![sep] + b2;
    assert(a.len() == b.len());
    if a1.len() < b1.len() {
        assert(a[a1.len() as int] == sep);
        assert(b[a1.len() as int] == b1[a1.len() as int]);
    } else if b1.len() < a1.len() {
        assert(b[b1.len() as int] == sep);
        assert(a[b1.len() as int] == a1[b1.len() as int]);
    }
    assert(a1.len() == b1.len());
    assert(a.len() == a1.len() + 1 + a2.len());
    assert(b.len() == b1.len() + 1 + b2.len());
    assert(a2.len() == b2.len());
    assert forall|i: int| 0 <= i < a1.len() implies a1[i] == b1[i] by {
        assert(a[i] == a1[i]);
        assert(b[i] == b1[i]);
    }
    assert(a1 =~= b1);
    assert forall|i: int| 0 <= i < a2.len() implies a2[i] == b2[i] by {
        assert(a[a1.len() + 1 + i] == a2[i]);
        assert(b[b1.len() + 1 + i] == b2[i]);
    }
    assert(a2 =~= b2);
}

/// The text of an octet holds digits only, and different octets have
/// different texts.
proof fn lemma_octet_text(a: u8, b: u8)
    ensures
        free_of(octet_text(a), '.'),
        free_of(octet_text(a), '-'),
        octet_text(a) == octet_text(b) ==> a == b,
{
    let ta = octet_text(a);
    let tb = octet_text(b);
    if ta == tb {
        assert(ta.len() == tb.len());
        assert(ta[0] == tb[0]);
        if a >= 10 {
            assert(ta[1] == tb[1]);
        }
        if a >= 100 {
            assert(ta[2] == tb[2]);
        }
    }
}

/// Four texts without a dash, joined by dots, hold no dash.
proof fn lemma_joined_has_no_dash(t0: Seq<char>, t1: Seq<char>, t2: Seq<char>, t3: Seq<char>)
    requires
        free_of(t0, '-'),
        free_of(t1, '-'),
        free_of(t2, '-'),
        free_of(t3, '-'),
    ensures
        free_of(joined(t0, t1, t2, t3), '-'),
{
    let all = joined(t0, t1, t2, t3);
    assert forall|i: int| 0 <= i < all.len() implies all[i] != '-' by {
        let n0 = t0.len() as int;
        let n1 = n0 + 1 + t1.len();
        let n2 = n1 + 1 + t2.len();
        if i < n0 {
            assert(all[i] == t0[i]);
        } else if i == n0 {
        } else if i < n1 {
            assert(all[i] == t1[i - n0 - 1]);
        } else if i == n1 {
        } else if i < n2 {
            assert(all[i] == t2[i - n1 - 1]);
        } else if i == n2 {
        } else {
            assert(all[i] == t3[i - n2 - 1]);
        }
    }
}

/// Texts without a dot that are joined by dots can be told apart again.
proof fn lemma_joined_injective(
    a0: Seq<char>,
    a1: Seq<char>,
    a2: Seq<char>,
    a3: Seq<char>,
    b0: Seq<char>,
    b1: Seq<char>,
    b2: Seq<char>,
    b3: Seq<char>,
)
    requires
        joined(a0, a1, a2, a3) == joined(b0, b1, b2, b3),
        free_of(a0, '.'),
        free_of(a1, '.'),
        free_of(a2, '.'),
        free_of(b0, '.'),
        free_of(b1, '.'),
        free_of(b2, '.'),
    ensures
        a0 == b0,
        a1 == b1,
        a2 == b2,
        a3 == b3,
{
    let dot = seq!['.'];
    assert(joined(a0, a1, a2, a3) =~= a0 + dot + (a1 + dot + (a2 + dot + a3)));
    assert(joined(b0, b1, b2, b3) =~= b0 + dot + (b1 + dot + (b2 + dot + b3)));
    lemma_split_at_separator(a0, a1 + dot + (a2 + dot + a3), b0, b1 + dot + (b2 + dot + b3), '.');
    lemma_split_at_separator(a1, a2 + dot + a3, b1, b2 + dot + b3, '.');
    lemma_split_at_separator(a2, a3, b2, b3, '.');
}

/// An address is determined by its four octets.
proof fn lemma_octets_determine_address(a: u32, b: u32)
    requires
        octet(a, 0) == octet(b, 0),
        octet(a, 1) == octet(b, 1),
        octet(a, 2) == octet(b, 2),
        octet(a, 3) == octet(b, 3),
    ensures
        a == b,
{
}

/// The text of an address holds no dash, and different addresses have
/// different texts.
proof fn lemma_dotted(a: u32, b: u32)
    ensures
        free_of(dotted(a), '-'),
        dotted(a) == dotted(b) ==> a == b,
{
    reveal(dotted);
    lemma_octet_text(octet(a, 0), octet(b, 0));
    lemma_octet_text(octet(a, 1), octet(b, 1));
    lemma_octet_text(octet(a, 2), octet(b, 2));
    lemma_octet_text(octet(a, 3), octet(b, 3));
    lemma_octet_text(octet(b, 0), octet(a, 0));
    lemma_octet_text(octet(b, 1), octet(a, 1));
    lemma_octet_text(octet(b, 2), octet(a, 2));
    lemma_joined_has_no_dash(
        octet_text(octet(a, 0)),
        octet_text(octet(a, 1)),
        octet_text(octet(a, 2)),
        octet_text(octet(a, 3)),
    );
    if dotted(a) == dotted(b) {
        lemma_joined_injective(
            octet_text(octet(a, 0)),
            octet_text(octet(a, 1)),
            octet_text(octet(a, 2)),
            octet_text(octet(a, 3)),
            octet_text(octet(b, 0)),
            octet_text(octet(b, 1)),
            octet_text(octet(b, 2)),
            octet_text(octet(b, 3)),
        );
        lemma_octets_determine_address(a, b);
    }
}

/// One file for each flow: in one directory, the files of different flows
/// have different names.
pub proof fn lemma_flow_file_name_injective(dir: Seq<char>, a: FlowKey, b: FlowKey)
    requires
        flow_file_name(dir, a) == flow_file_name(dir, b),
    ensures
        a == b,
{
    let head = dir + seq!['/', 'f', 'l', 'o', 'w', '-'];
    let dash = seq!['-'];
    let tail = seq!['.', 'p', 'c', 'a', 'p'];
    let na = flow_file_name(dir, a);
    let nb = flow_file_name(dir, b);
    let ra = dotted(a.source) + dash + (dotted(a.destination) + tail);
    let rb = dotted(b.source) + dash + (dotted(b.destination) + tail);
    assert(na =~= head + ra);
    assert(nb =~= head + rb);
    assert(ra =~= na.skip(head.len() as int));
    assert(rb =~= nb.skip(head.len() as int));
    lemma_dotted(a.source, b.source);
    lemma_dotted(b.source, a.source);
    lemma_split_at_separator(
        dotted(a.source),
        dotted(a.destination) + tail,
        dotted(b.source),
        dotted(b.destination) + tail,
        '-',
    );
    let da = dotted(a.destination);
    let db = dotted(b.destination);
    assert(da.len() == db.len());
    assert forall|i: int| 0 <= i < da.len() implies da[i] == db[i] by {
        assert((da + tail)[i] == da[i]);
        assert((db + tail)[i] == db[i]);
    }
    assert(da =~= db);
    lemma_dotted(a.destination, b.destination);
}

} // verus!
