use vstd::prelude::*;
use vstd::string::StrSliceExecFns;
use crate::models::{CertificateDisplayItem, CertificateInfo, CertificateNode, CertificateTree, ExtensionInfo, ValidityStatus};
use crate::parser::{common_name, extract_cn};
use crate::text::{chars_of, decimal, decimal_text};

verus! {

broadcast use vstd::std_specs::vec::group_vec_axioms, vstd::seq::group_seq_axioms;

// ---------------------------------------------------------------------------
// Depth-first order
// ---------------------------------------------------------------------------

/// The nodes of the trees in depth-first order, each with its depth, the
/// trees themselves at depth `depth`.
pub open spec fn preorder(nodes: Seq<CertificateNode>, depth: nat) -> Seq<(CertificateNode, nat)>
    decreases nodes,
{
    if nodes.len() == 0 {
        Seq::empty()
    } else {
        node_preorder(nodes[0], depth) + preorder(nodes.drop_first(), depth)
    }
}

/// The nodes of one tree in depth-first order, each with its depth.
pub open spec fn node_preorder(node: CertificateNode, depth: nat) -> Seq<(CertificateNode, nat)>
    decreases node,
{
    seq![(node, depth)] + preorder(node.children@, depth + 1)
}

proof fn lemma_preorder_push(nodes: Seq<CertificateNode>, i: int, depth: nat)
    requires
        0 <= i < nodes.len(),
    ensures
        preorder(nodes.subrange(0, i + 1), depth) == preorder(nodes.subrange(0, i), depth) + node_preorder(
            nodes[i],
            depth,
        ),
    decreases i,
{
    let a = nodes.subrange(0, i + 1);
    let b = nodes.subrange(0, i);
    if i == 0 {
        assert(a.drop_first() =~= Seq::<CertificateNode>::empty());
        assert(preorder(a.drop_first(), depth) == Seq::<(CertificateNode, nat)>::empty());
        assert(preorder(b, depth) == Seq::<(CertificateNode, nat)>::empty());
        assert(preorder(a, depth) =~= preorder(b, depth) + node_preorder(nodes[i], depth));
    } else {
        let rest = nodes.drop_first();
        lemma_preorder_push(rest, i - 1, depth);
        assert(a.drop_first() =~= rest.subrange(0, i));
        assert(b.drop_first() =~= rest.subrange(0, i - 1));
        assert(a[0] == nodes[0]);
        assert(b[0] == nodes[0]);
        assert(rest[i - 1] == nodes[i]);
        assert(preorder(a, depth) =~= preorder(b, depth) + node_preorder(nodes[i], depth));
    }
}

/// `n` spaces.
pub open spec fn spaces(n: nat) -> Seq<char> {
    Seq::new(n, |i: int| ' ')
}

/// Appends `n` spaces.
pub(crate) fn push_spaces(out: &mut String, n: u128)
    ensures
        final(out)@ == old(out)@ + spaces(n as nat),
{
    let ghost start = out@;
    let mut i: u128 = 0;
    while i < n
        invariant
            0 <= i <= n,
            out@ == start + spaces(i as nat),
        decreases n - i,
    {
        out.append(" ");
        proof {
            reveal_strlit(" ");
            assert(start + spaces((i + 1) as nat) =~= start + spaces(i as nat) + " "@);
        }
        i = i + 1;
    }
}

// ---------------------------------------------------------------------------
// Flattened list
// ---------------------------------------------------------------------------

/// The row name of a node: its number in brackets, two spaces per level of
/// depth, and its common name.
pub open spec fn row_name(number: nat, depth: nat, node: CertificateNode) -> Seq<char> {
    "["@ + decimal(number) + "] "@ + spaces(2 * depth) + common_name(node.cert.subject@)
}

/// `item` is the row for `node` at this depth with this number.
pub open spec fn row_of(item: CertificateDisplayItem, number: nat, depth: nat, node: CertificateNode) -> bool {
    &&& item.display_name@ == row_name(number, depth, node)
    &&& item.valid_until == node.cert.not_after
    &&& item.validity_status == node.validity_status
    &&& item.validation_status == node.validation_status
    &&& item.certificate_info@ == node.cert@
}

/// The rows from `from` on match `order`, numbered from one.
pub open spec fn rows_match(items: Seq<CertificateDisplayItem>, order: Seq<(CertificateNode, nat)>, from: int) -> bool {
    &&& items.len() == from + order.len()
    &&& forall|i: int|
        0 <= i < order.len() ==> row_of(#[trigger] items[from + i], (from + i + 1) as nat, order[i].1, order[i].0)
}

fn flatten_node(
    node: &CertificateNode,
    certificates: &mut Vec<CertificateDisplayItem>,
    indentation: &String,
    Ghost(depth): Ghost<nat>,
)
    requires
        indentation@ == spaces(2 * depth),
    ensures
        final(certificates)@.subrange(0, old(certificates).len() as int) == old(certificates)@,
        rows_match(final(certificates)@, node_preorder(*node, depth), old(certificates).len() as int),
    decreases *node,
{
    let ghost start = certificates@;
    let number = certificates.len() as u128 + 1;
    let mut display_name = "[".to_owned();
    display_name.append(decimal_text(number).as_str());
    display_name.append("] ");
    display_name.append(indentation.as_str());
    display_name.append(extract_cn(node.cert.subject.as_str()).as_str());
    certificates.push(CertificateDisplayItem {
        display_name,
        valid_until: node.cert.not_after.clone(),
        validity_status: node.validity_status,
        validation_status: node.validation_status,
        certificate_info: node.cert.clone(),
    });
    let mut child_indentation = indentation.clone();
    child_indentation.append("  ");
    proof {
        reveal_strlit("  ");
        assert(child_indentation@ =~= spaces(2 * (depth + 1)));
    }
    let ghost base = start.len() as int;
    let mut i: usize = 0;
    while i < node.children.len()
        invariant
            0 <= i <= node.children.len(),
            base == start.len(),
            child_indentation@ == spaces(2 * (depth + 1)),
            certificates@.subrange(0, base) == start,
            row_of(certificates@[base], (base + 1) as nat, depth, *node),
            rows_match(certificates@, preorder(node.children@.subrange(0, i as int), depth + 1), base + 1),
        decreases node.children.len() - i,
    {
        let ghost before = certificates@;
        proof {
            lemma_preorder_push(node.children@, i as int, depth + 1);
        }
        flatten_node(&node.children[i], certificates, &child_indentation, Ghost(depth + 1));
        proof {
            let prev = preorder(node.children@.subrange(0, i as int), depth + 1);
            let next = preorder(node.children@.subrange(0, i + 1), depth + 1);
            let added = node_preorder(node.children@[i as int], depth + 1);
            assert(next == prev + added);
            assert forall|k: int| 0 <= k < next.len() implies row_of(
                #[trigger] certificates@[base + 1 + k],
                (base + 1 + k + 1) as nat,
                next[k].1,
                next[k].0,
            ) by {
                if k < prev.len() {
                    assert(certificates@[base + 1 + k] == before[base + 1 + k]);
                } else {
                    let m = k - prev.len();
                    assert(certificates@[before.len() + m] == certificates@[base + 1 + k]);
                }
            }
            assert(certificates@.subrange(0, base) =~= before.subrange(0, base));
            assert(certificates@[base] == before[base]);
        }
        i = i + 1;
    }
    proof {
        assert(node.children@.subrange(0, node.children.len() as int) =~= node.children@);
        let order = node_preorder(*node, depth);
        let below = preorder(node.children@, depth + 1);
        assert(order == seq![(*node, depth)] + below);
        assert forall|k: int| 0 <= k < order.len() implies row_of(
            #[trigger] certificates@[base + k],
            (base + k + 1) as nat,
            order[k].1,
            order[k].0,
        ) by {
            if k > 0 {
                assert(order[k] == below[k - 1]);
                assert(row_of(
                    certificates@[base + 1 + (k - 1)],
                    (base + 1 + (k - 1) + 1) as nat,
                    below[k - 1].1,
                    below[k - 1].0,
                ));
                assert(base + 1 + (k - 1) == base + k);
            } else {
                assert(order[0] == (*node, depth));
            }
        }
        reveal_strlit("[");
        reveal_strlit("] ");
    }
}

/// The rows of the forest in depth-first order, numbered from one, each
/// with its common name indented by its depth, its expiry date, its two
/// statuses and its record.
pub fn flatten_certificate_tree(tree: &CertificateTree) -> (items: Vec<CertificateDisplayItem>)
    ensures
        rows_match(items@, preorder(tree.roots@, 0), 0),
{
    let mut certificates: Vec<CertificateDisplayItem> = Vec::new();
    let indentation = String::new();
    let mut i: usize = 0;
    while i < tree.roots.len()
        invariant
            0 <= i <= tree.roots.len(),
            indentation@ == spaces(0),
            rows_match(certificates@, preorder(tree.roots@.subrange(0, i as int), 0), 0),
        decreases tree.roots.len() - i,
    {
        let ghost before = certificates@;
        proof {
            lemma_preorder_push(tree.roots@, i as int, 0);
            assert(indentation@ =~= spaces(2 * 0));
        }
        flatten_node(&tree.roots[i], &mut certificates, &indentation, Ghost(0));
        proof {
            let prev = preorder(tree.roots@.subrange(0, i as int), 0);
            let next = preorder(tree.roots@.subrange(0, i + 1), 0);
            assert forall|k: int| 0 <= k < next.len() implies row_of(
                #[trigger] certificates@[0 + k],
                (0 + k + 1) as nat,
                next[k].1,
                next[k].0,
            ) by {
                if k < prev.len() {
                    assert(certificates@[k] == before[k]);
                } else {
                    let m = k - prev.len();
                    assert(certificates@[before.len() + m] == certificates@[k]);
                }
            }
        }
        i = i + 1;
    }
    proof {
        assert(tree.roots@.subrange(0, tree.roots.len() as int) =~= tree.roots@);
    }
    certificates
}

// ---------------------------------------------------------------------------
// Text rendering
// ---------------------------------------------------------------------------

/// The column at which the status and date of every line begin.
pub const DATE_COLUMN_START: usize = 78;

/// The number of bytes that UTF-8 takes for `c`.
pub open spec fn utf8_width(c: char) -> nat {
    if (c as u32) < 0x80 {
        1
    } else if (c as u32) < 0x800 {
        2
    } else if (c as u32) < 0x10000 {
        3
    } else {
        4
    }
}

/// The number of bytes that UTF-8 takes for `t`.
pub open spec fn byte_len(t: Seq<char>) -> nat
    decreases t.len(),
{
    if t.len() == 0 {
        0
    } else {
        byte_len(t.drop_last()) + utf8_width(t.last())
    }
}

pub(crate) fn text_byte_len(s: &str) -> (r: u128)
    ensures
        r == byte_len(s@),
        r <= 4 * (usize::MAX as int),
{
    let c = chars_of(s);
    let mut total: u128 = 0;
    let mut i: usize = 0;
    while i < c.len()
        invariant
            c@ == s@,
            0 <= i <= c.len(),
            total == byte_len(c@.subrange(0, i as int)),
            total <= 4 * i,
        decreases c.len() - i,
    {
        let code = c[i] as u32;
        let width: u128 = if code < 0x80 {
            1
        } else if code < 0x800 {
            2
        } else if code < 0x10000 {
            3
        } else {
            4
        };
        proof {
            assert(c@.subrange(0, i + 1).drop_last() =~= c@.subrange(0, i as int));
        }
        total = total + width;
        i = i + 1;
    }
    assert(c@.subrange(0, c.len() as int) =~= c@);
    assert(total <= 4 * (usize::MAX as int));
    total
}

/// What stands before a node's name: `━ ` at a root, and at depth `d > 0`
/// five spaces, four more per level below the first, and `└ `.
pub open spec fn text_prefix(depth: nat) -> Seq<char> {
    if depth == 0 {
        "━ "@
    } else {
        spaces((5 + 4 * (depth - 1)) as nat) + "└ "@
    }
}

/// `a - b`, or zero where `b` is larger.
pub open spec fn minus_or_zero(a: int, b: int) -> nat {
    if a > b {
        (a - b) as nat
    } else {
        0
    }
}

/// The room, in bytes, for the name after this prefix.
pub open spec fn name_room(prefix: Seq<char>) -> nat {
    minus_or_zero(minus_or_zero(DATE_COLUMN_START as int, byte_len(prefix) as int) as int, 5)
}

/// The name as shown in `room` bytes: a longer name keeps its first
/// `room - 3` characters (all `room` where that is at most three) and ends
/// in `...`.
pub open spec fn shown_name(name: Seq<char>, room: nat) -> Seq<char> {
    if byte_len(name) > room {
        let keep = if room > 3 { (room - 3) as nat } else { room };
        name.subrange(0, if keep < name.len() { keep as int } else { name.len() as int }) + "..."@
    } else {
        name
    }
}

/// The spaces that bring the date to its column; at least one.
pub open spec fn padding_width(prefix: Seq<char>, name: Seq<char>) -> nat {
    let end = byte_len(prefix) + byte_len(name);
    if end < DATE_COLUMN_START {
        (DATE_COLUMN_START - end) as nat
    } else {
        1
    }
}

/// The status word of a validity class in the text view.
pub open spec fn status_word(s: ValidityStatus) -> Seq<char> {
    match s {
        ValidityStatus::Expired => "EXPIRED"@,
        ValidityStatus::ExpiringSoon => "EXPIRES SOON"@,
        ValidityStatus::Valid => "VALID"@,
    }
}

/// The terminal colour of a validity class: red, yellow or green.
pub open spec fn status_colour(s: ValidityStatus) -> Seq<char> {
    match s {
        ValidityStatus::Expired => "\x1b[31m"@,
        ValidityStatus::ExpiringSoon => "\x1b[33m"@,
        ValidityStatus::Valid => "\x1b[32m"@,
    }
}

/// The line of the text view for `node` at this depth with this number:
/// number and name in white, then the status and the expiry date in the
/// colour of the validity class, from a fixed column on.
pub open spec fn text_line(number: nat, depth: nat, node: CertificateNode) -> Seq<char> {
    let prefix = text_prefix(depth);
    let name = shown_name(common_name(node.cert.subject@), name_room(prefix));
    "\x1b[37m["@ + decimal(number) + "] "@ + prefix + name + spaces(padding_width(prefix, name)) + "\x1b[0m"@
        + status_colour(node.validity_status) + "["@ + status_word(node.validity_status) + "] [until: "@
        + node.cert.not_after@ + "]\x1b[0m"@
}

/// The lines from `from` on are the text lines of `order`, numbered from one.
pub open spec fn lines_match(lines: Seq<String>, order: Seq<(CertificateNode, nat)>, from: int) -> bool {
    &&& lines.len() == from + order.len()
    &&& forall|i: int|
        0 <= i < order.len() ==> (#[trigger] lines[from + i])@ == text_line((from + i + 1) as nat, order[i].1, order[i].0)
}

fn shorten_name(name: String, room: u128) -> (r: String)
    ensures
        r@ == shown_name(name@, room as nat),
{
    let length = text_byte_len(name.as_str());
    if length > room {
        let keep: u128 = if room > 3 { room - 3 } else { room };
        let n = name.as_str().unicode_len();
        let take: usize = if keep < n as u128 { keep as usize } else { n };
        let mut out = name.as_str().substring_char(0, take).to_owned();
        out.append("...");
        out
    } else {
        name
    }
}

fn text_line_of(node: &CertificateNode, number: u128, prefix: &String, Ghost(depth): Ghost<nat>) -> (r: String)
    requires
        prefix@ == text_prefix(depth),
    ensures
        r@ == text_line(number as nat, depth, *node),
{
    let prefix_len = text_byte_len(prefix.as_str());
    let column = DATE_COLUMN_START as u128;
    let after_prefix: u128 = if column > prefix_len { column - prefix_len } else { 0 };
    let room: u128 = if after_prefix > 5 { after_prefix - 5 } else { 0 };
    let name = shorten_name(extract_cn(node.cert.subject.as_str()), room);
    let name_len = text_byte_len(name.as_str());
    let end: u128 = prefix_len + name_len;
    let padding: usize = if end < column { (column - end) as usize } else { 1 };
    let (word, colour) = match node.validity_status {
        ValidityStatus::Expired => ("EXPIRED", "\x1b[31m"),
        ValidityStatus::ExpiringSoon => ("EXPIRES SOON", "\x1b[33m"),
        ValidityStatus::Valid => ("VALID", "\x1b[32m"),
    };
    let mut line = "\x1b[37m[".to_owned();
    line.append(decimal_text(number).as_str());
    line.append("] ");
    line.append(prefix.as_str());
    line.append(name.as_str());
    push_spaces(&mut line, padding as u128);
    line.append("\x1b[0m");
    line.append(colour);
    line.append("[");
    line.append(word);
    line.append("] [until: ");
    line.append(node.cert.not_after.as_str());
    line.append("]\x1b[0m");
    line
}

fn text_node(
    node: &CertificateNode,
    lines: &mut Vec<String>,
    prefix: &String,
    child_indent: &String,
    Ghost(depth): Ghost<nat>,
)
    requires
        prefix@ == text_prefix(depth),
        child_indent@ == spaces((5 + 4 * depth) as nat),
    ensures
        final(lines)@.subrange(0, old(lines).len() as int) == old(lines)@,
        lines_match(final(lines)@, node_preorder(*node, depth), old(lines).len() as int),
    decreases *node,
{
    let ghost start = lines@;
    let number = lines.len() as u128 + 1;
    lines.push(text_line_of(node, number, prefix, Ghost(depth)));
    let mut child_prefix = child_indent.clone();
    child_prefix.append("└ ");
    let mut grandchild_indent = child_indent.clone();
    grandchild_indent.append("    ");
    proof {
        reveal_strlit("    ");
        assert(child_prefix@ =~= text_prefix(depth + 1));
        assert(grandchild_indent@ =~= spaces((5 + 4 * (depth + 1)) as nat));
    }
    let ghost base = start.len() as int;
    let mut i: usize = 0;
    while i < node.children.len()
        invariant
            0 <= i <= node.children.len(),
            base == start.len(),
            child_prefix@ == text_prefix(depth + 1),
            grandchild_indent@ == spaces((5 + 4 * (depth + 1)) as nat),
            lines@.subrange(0, base) == start,
            lines@[base]@ == text_line((base + 1) as nat, depth, *node),
            lines_match(lines@, preorder(node.children@.subrange(0, i as int), depth + 1), base + 1),
        decreases node.children.len() - i,
    {
        let ghost before = lines@;
        proof {
            lemma_preorder_push(node.children@, i as int, depth + 1);
        }
        text_node(&node.children[i], lines, &child_prefix, &grandchild_indent, Ghost(depth + 1));
        proof {
            let prev = preorder(node.children@.subrange(0, i as int), depth + 1);
            let next = preorder(node.children@.subrange(0, i + 1), depth + 1);
            assert forall|k: int| 0 <= k < next.len() implies (#[trigger] lines@[base + 1 + k])@ == text_line(
                (base + 1 + k + 1) as nat,
                next[k].1,
                next[k].0,
            ) by {
                if k < prev.len() {
                    assert(lines@[base + 1 + k] == before[base + 1 + k]);
                } else {
                    let m = k - prev.len();
                    assert(lines@[before.len() + m] == lines@[base + 1 + k]);
                }
            }
            assert(lines@.subrange(0, base) =~= before.subrange(0, base));
            assert(lines@[base] == before[base]);
        }
        i = i + 1;
    }
    proof {
        assert(node.children@.subrange(0, node.children.len() as int) =~= node.children@);
        let order = node_preorder(*node, depth);
        let below = preorder(node.children@, depth + 1);
        assert(order == seq![(*node, depth)] + below);
        assert forall|k: int| 0 <= k < order.len() implies (#[trigger] lines@[base + k])@ == text_line(
            (base + k + 1) as nat,
            order[k].1,
            order[k].0,
        ) by {
            if k > 0 {
                assert(order[k] == below[k - 1]);
                assert(lines@[base + 1 + (k - 1)]@ == text_line(
                    (base + 1 + (k - 1) + 1) as nat,
                    below[k - 1].1,
                    below[k - 1].0,
                ));
                assert(base + 1 + (k - 1) == base + k);
            } else {
                assert(order[0] == (*node, depth));
            }
        }
    }
}

/// The lines of the text view of the forest, in depth-first order and
/// numbered from one. Printing them is left to the caller.
pub fn display_certificate_tree_text(tree: &CertificateTree) -> (lines: Vec<String>)
    ensures
        lines_match(lines@, preorder(tree.roots@, 0), 0),
{
    let mut lines: Vec<String> = Vec::new();
    let prefix = "━ ".to_owned();
    let child_indent = "     ".to_owned();
    proof {
        reveal_strlit("     ");
        assert(child_indent@ =~= spaces(5));
    }
    let mut i: usize = 0;
    while i < tree.roots.len()
        invariant
            0 <= i <= tree.roots.len(),
            prefix@ == text_prefix(0),
            child_indent@ == spaces((5 + 4 * 0) as nat),
            lines_match(lines@, preorder(tree.roots@.subrange(0, i as int), 0), 0),
        decreases tree.roots.len() - i,
    {
        let ghost before = lines@;
        proof {
            lemma_preorder_push(tree.roots@, i as int, 0);
        }
        text_node(&tree.roots[i], &mut lines, &prefix, &child_indent, Ghost(0));
        proof {
            let prev = preorder(tree.roots@.subrange(0, i as int), 0);
            let next = preorder(tree.roots@.subrange(0, i + 1), 0);
            assert forall|k: int| 0 <= k < next.len() implies (#[trigger] lines@[0 + k])@ == text_line(
                (0 + k + 1) as nat,
                next[k].1,
                next[k].0,
            ) by {
                if k < prev.len() {
                    assert(lines@[k] == before[k]);
                } else {
                    let m = k - prev.len();
                    assert(lines@[before.len() + m] == lines@[k]);
                }
            }
        }
        i = i + 1;
    }
    proof {
        assert(tree.roots@.subrange(0, tree.roots.len() as int) =~= tree.roots@);
    }
    lines
}

// ---------------------------------------------------------------------------
// Verbose view of one certificate
// ---------------------------------------------------------------------------

/// The word for a flag.
pub open spec fn flag_word(b: bool) -> Seq<char> {
    if b {
        "true"@
    } else {
        "false"@
    }
}

/// The line of one extension: its name (or, without one, its OID), whether
/// it is critical, and its value.
pub open spec fn extension_line(e: ExtensionInfo) -> Seq<char> {
    "  "@ + match e.name {
        Some(n) => n@,
        None => e.oid@,
    } + " ("@ + (if e.critical {
        "critical"@
    } else {
        "non-critical"@
    }) + ") - "@ + e.value@
}

/// The lines of the verbose view of one certificate.
pub open spec fn verbose_lines(cert: CertificateInfo) -> Seq<Seq<char>> {
    let head = seq![
        "Certificate Information:"@,
        "======================"@,
        "CN: "@ + common_name(cert.subject@),
        "Issuer: "@ + cert.issuer@,
        "Serial Number: "@ + cert.serial_number@,
        "Validity:"@,
        "  Not Before: "@ + cert.not_before@,
        "  Not After: "@ + cert.not_after@,
        "Public Key Algorithm: "@ + cert.public_key_algorithm@,
        "Signature Algorithm: "@ + cert.signature_algorithm@,
        "Version: "@ + decimal(cert.version as nat),
        "Is CA: "@ + flag_word(cert.is_ca),
    ];
    let key_usage = match cert.key_usage {
        Some(k) => seq!["Key Usage: "@ + k@],
        None => Seq::empty(),
    };
    let names = cert.subject_alt_names@;
    let alt_names = if names.len() == 0 {
        Seq::empty()
    } else {
        seq!["Subject Alternative Names:"@] + Seq::new(names.len(), |i: int| "  "@ + names[i]@)
    };
    let extensions = Seq::new(cert.extensions.len() as nat, |i: int| extension_line(cert.extensions@[i]));
    head + key_usage + alt_names + seq!["Extensions:"@] + extensions
}

fn joined(a: &str, b: &str) -> (r: String)
    ensures
        r@ == a@ + b@,
{
    let mut out = a.to_owned();
    out.append(b);
    out
}

/// The texts of the lines.
pub open spec fn texts(lines: Seq<String>) -> Seq<Seq<char>> {
    lines.map_values(|l: String| l@)
}

fn push_line(lines: &mut Vec<String>, line: String)
    ensures
        texts(final(lines)@) == texts(old(lines)@).push(line@),
{
    let ghost before = lines@;
    lines.push(line);
    assert(texts(lines@) =~= texts(before).push(line@));
}

/// The lines of the verbose view of one certificate. Printing them is left
/// to the caller.
pub fn display_verbose(cert: &CertificateInfo) -> (lines: Vec<String>)
    ensures
        texts(lines@) == verbose_lines(*cert),
{
    let mut lines: Vec<String> = Vec::new();
    push_line(&mut lines, "Certificate Information:".to_owned());
    push_line(&mut lines, "======================".to_owned());
    push_line(&mut lines, joined("CN: ", extract_cn(cert.subject.as_str()).as_str()));
    push_line(&mut lines, joined("Issuer: ", cert.issuer.as_str()));
    push_line(&mut lines, joined("Serial Number: ", cert.serial_number.as_str()));
    push_line(&mut lines, "Validity:".to_owned());
    push_line(&mut lines, joined("  Not Before: ", cert.not_before.as_str()));
    push_line(&mut lines, joined("  Not After: ", cert.not_after.as_str()));
    push_line(&mut lines, joined("Public Key Algorithm: ", cert.public_key_algorithm.as_str()));
    push_line(&mut lines, joined("Signature Algorithm: ", cert.signature_algorithm.as_str()));
    push_line(&mut lines, joined("Version: ", decimal_text(cert.version as u128).as_str()));
    push_line(&mut lines, joined("Is CA: ", if cert.is_ca { "true" } else { "false" }));
    let ghost head = texts(lines@);
    proof {
        assert(texts(Seq::<String>::empty()) =~= Seq::<Seq<char>>::empty());
        assert(head =~= seq![
            "Certificate Information:"@,
            "======================"@,
            "CN: "@ + common_name(cert.subject@),
            "Issuer: "@ + cert.issuer@,
            "Serial Number: "@ + cert.serial_number@,
            "Validity:"@,
            "  Not Before: "@ + cert.not_before@,
            "  Not After: "@ + cert.not_after@,
            "Public Key Algorithm: "@ + cert.public_key_algorithm@,
            "Signature Algorithm: "@ + cert.signature_algorithm@,
            "Version: "@ + decimal(cert.version as nat),
            "Is CA: "@ + flag_word(cert.is_ca),
        ]);
    }
    match &cert.key_usage {
        Some(k) => push_line(&mut lines, joined("Key Usage: ", k.as_str())),
        None => {},
    }
    let ghost key_usage: Seq<Seq<char>> = if cert.key_usage is Some {
        seq!["Key Usage: "@ + cert.key_usage->0@]
    } else {
        Seq::empty()
    };
    assert(texts(lines@) =~= head + key_usage);
    let ghost with_usage = texts(lines@);
    let names = &cert.subject_alt_names;
    let ghost alt_names: Seq<Seq<char>> = if names.len() == 0 {
        Seq::empty()
    } else {
        seq!["Subject Alternative Names:"@] + Seq::new(names@.len(), |i: int| "  "@ + names@[i]@)
    };
    if names.len() > 0 {
        push_line(&mut lines, "Subject Alternative Names:".to_owned());
        let ghost mark = texts(lines@);
        let mut i: usize = 0;
        while i < names.len()
            invariant
                0 <= i <= names.len(),
                mark == with_usage.push("Subject Alternative Names:"@),
                texts(lines@) == mark + Seq::new(i as nat, |j: int| "  "@ + names@[j]@),
            decreases names.len() - i,
        {
            push_line(&mut lines, joined("  ", names[i].as_str()));
            assert(texts(lines@) =~= mark + Seq::new((i + 1) as nat, |j: int| "  "@ + names@[j]@));
            i = i + 1;
        }
        assert(texts(lines@) =~= with_usage + alt_names);
    } else {
        assert(texts(lines@) =~= with_usage + alt_names);
    }
    let ghost with_names = texts(lines@);
    push_line(&mut lines, "Extensions:".to_owned());
    let ghost mark = texts(lines@);
    let mut i: usize = 0;
    while i < cert.extensions.len()
        invariant
            0 <= i <= cert.extensions.len(),
            mark == with_names.push("Extensions:"@),
            texts(lines@) == mark + Seq::new(i as nat, |j: int| extension_line(cert.extensions@[j])),
        decreases cert.extensions.len() - i,
    {
        let e = &cert.extensions[i];
        let mut line = "  ".to_owned();
        match &e.name {
            Some(n) => line.append(n.as_str()),
            None => line.append(e.oid.as_str()),
        }
        line.append(" (");
        line.append(if e.critical { "critical" } else { "non-critical" });
        line.append(") - ");
        line.append(e.value.as_str());
        push_line(&mut lines, line);
        assert(texts(lines@) =~= mark + Seq::new((i + 1) as nat, |j: int| extension_line(cert.extensions@[j])));
        i = i + 1;
    }
    assert(texts(lines@) =~= verbose_lines(*cert));
    lines
}

} // verus!
