//! The mount that a state directory lies on, as the kernel lists it.

use vstd::prelude::*;
use vstd::string::*;

use crate::decimal::parse_unsigned;
use crate::decimal;
use crate::parts::{find_text, join_texts, lines_of, split_text, words_of};
use crate::parts;
use crate::sse::read_lossy;
use crate::sse;
use crate::text::{chars_of, same_text, text_between, text_precedes};
use crate::text;

verus! {

/// What is known of the mount that a state directory lies on.
#[derive(Debug, Clone, PartialEq, Eq)]
pub struct StateDirMountMetadata {
    pub filesystem_type: Option<String>,
    pub mount_id: Option<u64>,
    pub mount_options: Option<String>,
}

/// What the metadata of a mount holds.
pub struct MountView {
    pub filesystem_type: Option<Seq<char>>,
    pub mount_id: Option<u64>,
    pub mount_options: Option<Seq<char>>,
}

impl View for StateDirMountMetadata {
    type V = MountView;

    open spec fn view(&self) -> MountView {
        MountView {
            filesystem_type: text::optional_text(self.filesystem_type),
            mount_id: self.mount_id,
            mount_options: text::optional_text(self.mount_options),
        }
    }
}

impl Default for StateDirMountMetadata {
    /// Nothing is known.
    fn default() -> (metadata: Self)
        ensures
            metadata@ == nothing_known(),
    {
        StateDirMountMetadata { filesystem_type: None, mount_id: None, mount_options: None }
    }
}

/// Nothing is known of a mount.
pub open spec fn nothing_known() -> MountView {
    MountView { filesystem_type: None, mount_id: None, mount_options: None }
}

/// An octal digit.
pub open spec fn is_octal(byte: u8) -> bool {
    0x30 <= byte <= 0x37
}

/// Whether bytes begin with a backslash and three octal digits.
pub open spec fn begins_with_escape(bytes: Seq<u8>) -> bool {
    bytes.len() > 3 && bytes[0] == 0x5c && is_octal(bytes[1]) && is_octal(bytes[2]) && is_octal(
        bytes[3],
    )
}

/// The byte that three octal digits stand for.
pub open spec fn octal_value(a: u8, b: u8, c: u8) -> u8 {
    (((a - 0x30) * 64 + (b - 0x30) * 8 + (c - 0x30)) % 256) as u8
}

/// The bytes of a field with its escapes resolved.
pub open spec fn unescaped(bytes: Seq<u8>) -> Seq<u8>
    decreases bytes.len(),
{
    if bytes.len() == 0 {
        Seq::empty()
    } else if begins_with_escape(bytes) {
        seq![octal_value(bytes[1], bytes[2], bytes[3])] + unescaped(bytes.skip(4))
    } else {
        seq![bytes[0]] + unescaped(bytes.drop_first())
    }
}

/// The text of a field with its escapes resolved.
pub open spec fn decoded_field(field: Seq<char>) -> Seq<char> {
    sse::lossy_text(unescaped(vstd::utf8::encode_utf8(field)))
}

/// A byte as a backslash and three octal digits.
pub open spec fn octal_escape(byte: u8) -> Seq<u8> {
    seq![
        0x5cu8,
        (0x30 + byte / 64) as u8,
        (0x30 + byte / 8 % 8) as u8,
        (0x30 + byte % 8) as u8,
    ]
}

/// Bytes with an octal escape in place of each byte that is in `marked`.
pub open spec fn escaped(bytes: Seq<u8>, marked: Set<u8>) -> Seq<u8>
    decreases bytes.len(),
{
    if bytes.len() == 0 {
        Seq::empty()
    } else if marked.contains(bytes[0]) {
        octal_escape(bytes[0]) + escaped(bytes.drop_first(), marked)
    } else {
        seq![bytes[0]] + escaped(bytes.drop_first(), marked)
    }
}

/// Resolving escapes gives back the bytes that were escaped, whichever bytes were, as long as each
/// backslash was.
pub proof fn law_escapes_resolve(bytes: Seq<u8>, marked: Set<u8>)
    requires
        marked.contains(0x5c),
    ensures
        unescaped(escaped(bytes, marked)) == bytes,
    decreases bytes.len(),
{
    if bytes.len() > 0 {
        let rest = escaped(bytes.drop_first(), marked);
        let whole = escaped(bytes, marked);
        law_escapes_resolve(bytes.drop_first(), marked);
        if marked.contains(bytes[0]) {
            assert(whole.skip(4) =~= rest);
        } else {
            assert(whole.drop_first() =~= rest);
        }
        assert(seq![bytes[0]] + bytes.drop_first() =~= bytes);
    }
}

/// The text of a field with its escapes resolved. A field that was written for a text, with its
/// backslashes and any other bytes escaped, decodes to that text.
pub fn decode_mountinfo_field(field: &str) -> (result: String)
    ensures
        result@ == decoded_field(field@),
        vstd::utf8::valid_utf8(unescaped(vstd::utf8::encode_utf8(field@))) ==> result@
            == vstd::utf8::decode_utf8(unescaped(vstd::utf8::encode_utf8(field@))),
        forall|plain: Seq<char>, marked: Set<u8>|
            #![trigger escaped(vstd::utf8::encode_utf8(plain), marked)]
            marked.contains(0x5c) && vstd::utf8::encode_utf8(field@) == escaped(
                vstd::utf8::encode_utf8(plain),
                marked,
            ) ==> result@ == plain,
{
    let bytes = field.as_bytes();
    let length: usize = bytes.len();
    let mut decoded: Vec<u8> = Vec::new();
    let mut index: usize = 0;
    assert(bytes@.skip(0) =~= bytes@);
    assert(decoded@ + unescaped(bytes@) =~= unescaped(bytes@));
    while index < length
        invariant
            length == bytes@.len(),
            index <= length,
            decoded@ + unescaped(bytes@.skip(index as int)) == unescaped(bytes@),
        decreases length - index,
    {
        let ghost rest = bytes@.skip(index as int);
        let ghost before = decoded@;
        if bytes[index] == 0x5c && length - index > 3 && 0x30 <= bytes[index + 1] && bytes[index + 1]
            <= 0x37 && 0x30 <= bytes[index + 2] && bytes[index + 2] <= 0x37 && 0x30 <= bytes[index
            + 3] && bytes[index + 3] <= 0x37 {
            let value: u32 = (bytes[index + 1] as u32 - 0x30) * 64 + (bytes[index + 2] as u32
                - 0x30) * 8 + (bytes[index + 3] as u32 - 0x30);
            let byte: u8 = (value % 256) as u8;
            assert(byte == octal_value(rest[1], rest[2], rest[3]));
            decoded.push(byte);
            index = index + 4;
            assert(rest.skip(4) =~= bytes@.skip(index as int));
        } else {
            decoded.push(bytes[index]);
            index = index + 1;
            assert(rest.drop_first() =~= bytes@.skip(index as int));
        }
        assert(decoded@ + unescaped(bytes@.skip(index as int)) =~= before + unescaped(rest));
    }
    assert(decoded@ =~= unescaped(bytes@));
    proof {
        assert forall|plain: Seq<char>, marked: Set<u8>|
            #![trigger escaped(vstd::utf8::encode_utf8(plain), marked)]
            marked.contains(0x5c) && bytes@ == escaped(
                vstd::utf8::encode_utf8(plain),
                marked,
            ) implies vstd::utf8::valid_utf8(decoded@) && vstd::utf8::decode_utf8(decoded@)
            == plain by {
            law_escapes_resolve(vstd::utf8::encode_utf8(plain), marked);
            vstd::utf8::encode_utf8_valid_utf8(plain);
            vstd::utf8::encode_utf8_decode_utf8(plain);
        }
    }
    read_lossy(decoded.as_slice())
}

/// The mount options that are told to the outside.
#[verifier::opaque]
pub open spec fn is_safe_key(key: Seq<char>) -> bool {
    ||| key == "async"@
    ||| key == "barrier"@
    ||| key == "commit"@
    ||| key == "data"@
    ||| key == "delalloc"@
    ||| key == "dirsync"@
    ||| key == "discard"@
    ||| key == "errors"@
    ||| key == "index"@
    ||| key == "journal_async_commit"@
    ||| key == "journal_checksum"@
    ||| key == "lazytime"@
    ||| key == "metacopy"@
    ||| key == "noatime"@
    ||| key == "nobarrier"@
    ||| key == "nodev"@
    ||| key == "nodelalloc"@
    ||| key == "nodiratime"@
    ||| key == "nodiscard"@
    ||| key == "noexec"@
    ||| key == "nosuid"@
    ||| key == "relatime"@
    ||| key == "redirect_dir"@
    ||| key == "ro"@
    ||| key == "rw"@
    ||| key == "strictatime"@
    ||| key == "sync"@
    ||| key == "volatile"@
    ||| key == "xino"@
}

/// The key of a mount option: what stands before the equals sign.
pub open spec fn option_key(option: Seq<char>) -> Seq<char> {
    parts::split(option, '=')[0]
}

/// Whether a mount option is told to the outside.
pub open spec fn is_safe(option: Seq<char>) -> bool {
    is_safe_key(option_key(option))
}

/// Where a text goes among texts in order: behind the last that it does not precede.
pub open spec fn text_slot(texts: Seq<Seq<char>>, text: Seq<char>) -> int
    decreases texts.len(),
{
    if texts.len() == 0 || !text::precedes(text, texts.last()) {
        texts.len() as int
    } else {
        text_slot(texts.drop_last(), text)
    }
}

/// Texts in order, with one more put in unless it is among them.
pub open spec fn with_text(texts: Seq<Seq<char>>, text: Seq<char>) -> Seq<Seq<char>> {
    let at = text_slot(texts, text);
    if at > 0 && texts[at - 1] == text {
        texts
    } else {
        texts.insert(at, text)
    }
}

/// The options that are told to the outside, in order, each once.
pub open spec fn safe_options(options: Seq<Seq<char>>) -> Seq<Seq<char>>
    decreases options.len(),
{
    if options.len() == 0 {
        Seq::empty()
    } else if is_safe(options.last()) {
        with_text(safe_options(options.drop_last()), options.last())
    } else {
        safe_options(options.drop_last())
    }
}

/// The options of a mount and of its file system that are told to the outside, as one text.
pub open spec fn sanitized(mount_options: Seq<char>, super_options: Seq<char>) -> Option<Seq<char>> {
    let safe = safe_options(parts::split(mount_options, ',') + parts::split(super_options, ','));
    if safe.len() == 0 {
        None
    } else {
        Some(parts::joined(safe, ','))
    }
}

/// Whether a mount option with the key `key` is told to the outside.
fn is_safe_option_key(key: &str) -> (safe: bool)
    ensures
        safe == is_safe_key(key@),
{
    reveal(is_safe_key);
    same_text(key, "async") || same_text(key, "barrier") || same_text(key, "commit")
        || same_text(key, "data") || same_text(key, "delalloc") || same_text(key, "dirsync")
        || same_text(key, "discard") || same_text(key, "errors") || same_text(key, "index")
        || same_text(key, "journal_async_commit") || same_text(key, "journal_checksum")
        || same_text(key, "lazytime") || same_text(key, "metacopy") || same_text(key, "noatime")
        || same_text(key, "nobarrier") || same_text(key, "nodev") || same_text(key, "nodelalloc")
        || same_text(key, "nodiratime") || same_text(key, "nodiscard") || same_text(key, "noexec")
        || same_text(key, "nosuid") || same_text(key, "relatime")
        || same_text(key, "redirect_dir") || same_text(key, "ro") || same_text(key, "rw")
        || same_text(key, "strictatime") || same_text(key, "sync") || same_text(key, "volatile")
        || same_text(key, "xino")
}

/// Puts a text among texts in order, unless it is among them.
fn put_text(texts: &mut Vec<String>, addition: &str)
    ensures
        text::texts(final(texts)@) == with_text(text::texts(old(texts)@), addition@),
{
    let ghost before = text::texts(texts@);
    let mut at: usize = texts.len();
    assert(before.take(at as int) =~= before);
    while at > 0 && text_precedes(addition, texts[at - 1].as_str())
        invariant
            at <= texts@.len(),
            before == text::texts(texts@),
            text_slot(before, addition@) == text_slot(before.take(at as int), addition@),
        decreases at,
    {
        assert(before.take(at as int).drop_last() =~= before.take(at - 1));
        at = at - 1;
    }
    assert(text_slot(before, addition@) == at) by {
        if at > 0 {
            assert(before.take(at as int).last() == before[at - 1]);
        }
    }
    if at > 0 && same_text(texts[at - 1].as_str(), addition) {
        return;
    }
    texts.insert(at, addition.to_owned());
    assert(text::texts(texts@) =~= before.insert(at as int, addition@));
}

/// Puts the options that are told to the outside among `safe`.
fn put_safe_options(safe: &mut Vec<String>, options: &str, Ghost(earlier): Ghost<Seq<Seq<char>>>)
    requires
        text::texts(old(safe)@) == safe_options(earlier),
    ensures
        text::texts(final(safe)@) == safe_options(earlier + parts::split(options@, ',')),
{
    let list = split_text(options, ',');
    let ghost held = parts::split(options@, ',');
    let mut i: usize = 0;
    assert(earlier + held.take(0) =~= earlier);
    while i < list.len()
        invariant
            i <= list@.len(),
            held == text::texts(list@),
            text::texts(safe@) == safe_options(earlier + held.take(i as int)),
        decreases list@.len() - i,
    {
        let ghost longer = earlier + held.take(i + 1);
        assert(longer.drop_last() =~= earlier + held.take(i as int));
        assert(longer.last() == list@[i as int]@);
        let fields = split_text(list[i].as_str(), '=');
        proof {
            parts::lemma_split_joined(list@[i as int]@, '=');
        }
        assert(fields@[0]@ == text::texts(fields@)[0]);
        if is_safe_option_key(fields[0].as_str()) {
            put_text(safe, list[i].as_str());
        }
        i = i + 1;
    }
    assert(held.take(i as int) =~= held);
}

/// The options of a mount and of its file system that are told to the outside, as one text.
pub fn sanitized_mount_options(mount_options: &str, super_options: &str) -> (result: Option<String>)
    ensures
        text::optional_text(result) == sanitized(mount_options@, super_options@),
{
    let mut safe: Vec<String> = Vec::new();
    assert(text::texts(safe@) =~= safe_options(Seq::empty()));
    put_safe_options(&mut safe, mount_options, Ghost(Seq::empty()));
    assert(Seq::empty() + parts::split(mount_options@, ',') =~= parts::split(mount_options@, ','));
    put_safe_options(&mut safe, super_options, Ghost(parts::split(mount_options@, ',')));
    if safe.len() == 0 {
        None
    } else {
        Some(join_texts(&safe, ','))
    }
}

/// The components of a path: the root where it begins with a slash, or the current directory where
/// it begins with a dot, and each name.
pub open spec fn components(path: Seq<char>) -> Seq<Seq<char>> {
    let names = parts::split(path, '/');
    if names[0].len() == 0 && path.len() > 0 {
        seq!["/"@] + proper_names(names)
    } else if names[0] == "."@ {
        seq!["."@] + proper_names(names)
    } else {
        proper_names(names)
    }
}

/// The names in a path that are neither empty nor a single dot.
pub open spec fn proper_names(names: Seq<Seq<char>>) -> Seq<Seq<char>>
    decreases names.len(),
{
    if names.len() == 0 {
        Seq::empty()
    } else if names.last().len() == 0 || names.last() == "."@ {
        proper_names(names.drop_last())
    } else {
        proper_names(names.drop_last()).push(names.last())
    }
}

/// Whether a path lies at or below the path with the components `base`.
pub open spec fn lies_below(path: Seq<Seq<char>>, base: Seq<Seq<char>>) -> bool {
    base.len() <= path.len() && path.take(base.len() as int) == base
}

/// The components of a path.
fn path_components(path: &str) -> (result: Vec<String>)
    ensures
        text::texts(result@) == components(path@),
{
    broadcast use text::lemma_texts_push;

    let names = split_text(path, '/');
    let ghost held = parts::split(path@, '/');
    proof {
        parts::lemma_split_joined(path@, '/');
    }
    let mut result: Vec<String> = Vec::new();
    assert(text::texts(result@) =~= Seq::empty());
    assert(names@[0]@ == held[0]);
    if names[0].as_str().is_empty() && !path.is_empty() {
        result.push("/".to_owned());
        assert(text::texts(result@) =~= seq!["/"@]);
    } else if same_text(names[0].as_str(), ".") {
        result.push(".".to_owned());
        assert(text::texts(result@) =~= seq!["."@]);
    }
    let ghost front = text::texts(result@);
    let mut i: usize = 0;
    assert(front + proper_names(held.take(0)) =~= front);
    while i < names.len()
        invariant
            i <= names@.len(),
            held == text::texts(names@),
            text::texts(result@) == front + proper_names(held.take(i as int)),
        decreases names@.len() - i,
    {
        assert(held.take(i + 1).drop_last() =~= held.take(i as int));
        assert(held.take(i + 1).last() == names@[i as int]@);
        if !names[i].as_str().is_empty() && !same_text(names[i].as_str(), ".") {
            result.push(names[i].clone());
            assert(front + proper_names(held.take(i + 1)) =~= (front + proper_names(
                held.take(i as int),
            )).push(names@[i as int]@));
        }
        i = i + 1;
    }
    assert(held.take(i as int) =~= held);
    assert(text::texts(result@) =~= components(path@));
    result
}

/// Whether the components `path` begin with the components `base`.
fn begins_with_components(path: &Vec<String>, base: &Vec<String>) -> (result: bool)
    ensures
        result == lies_below(text::texts(path@), text::texts(base@)),
{
    if base.len() > path.len() {
        return false;
    }
    let ghost (p, b) = (text::texts(path@), text::texts(base@));
    let mut i: usize = 0;
    while i < base.len()
        invariant
            i <= base@.len() <= path@.len(),
            p == text::texts(path@),
            b == text::texts(base@),
            forall|j: int| 0 <= j < i ==> p[j] == b[j],
        decreases base@.len() - i,
    {
        if !same_text(path[i].as_str(), base[i].as_str()) {
            assert(p.take(b.len() as int)[i as int] != b[i as int]);
            return false;
        }
        i = i + 1;
    }
    assert(p.take(b.len() as int) =~= b);
    true
}

/// A line of the list of mounts: the components of the mount point, and what it tells.
pub struct MountLine {
    pub point: Seq<Seq<char>>,
    pub metadata: MountView,
}

/// What a line of the list of mounts tells, where it is whole: the fields before the separator,
/// among them the number, the mount point and the options, and those behind it, among them the
/// type and the options of the file system.
#[verifier::opaque]
pub open spec fn mount_line(line: Seq<char>) -> Option<MountLine> {
    if !parts::contains(line, " - "@) {
        None
    } else {
        let at = separator_at(line);
        let before = parts::words(line.take(at));
        let after = parts::words(line.skip(at + 3));
        if before.len() < 6 || after.len() < 3 {
            None
        } else {
            Some(
                MountLine {
                    point: components(decoded_field(before[4])),
                    metadata: MountView {
                        filesystem_type: Some(after[0]),
                        mount_id: match decimal::spelled(before[0], u64::MAX as int) {
                            Some(id) => Some(id as u64),
                            None => None,
                        },
                        mount_options: sanitized(before[5], after[2]),
                    },
                },
            )
        }
    }
}

/// Where the separator of a line stands for the first time.
pub open spec fn separator_at(line: Seq<char>) -> int {
    choose|at: int|
        parts::stands_at(line, " - "@, at) && forall|other: int|
            0 <= other < at ==> !#[trigger] parts::stands_at(line, " - "@, other)
}

/// The mount that a path lies on, as far as the lines tell: of the mount points that it lies at or
/// below the deepest, and of several as deep the first.
pub open spec fn best_mount(path: Seq<Seq<char>>, lines: Seq<Seq<char>>) -> Option<MountLine>
    decreases lines.len(),
{
    if lines.len() == 0 {
        None
    } else {
        let best = best_mount(path, lines.drop_last());
        match mount_line(lines.last()) {
            Some(mount) => if lies_below(path, mount.point) && (best is None
                || best->0.point.len() < mount.point.len()) {
                Some(mount)
            } else {
                best
            },
            None => best,
        }
    }
}

/// What is known of the mount that the path `path` lies on.
pub open spec fn mount_of(path: Seq<char>, mountinfo: Seq<char>) -> MountView {
    match best_mount(components(path), parts::lines(mountinfo)) {
        Some(mount) => mount.metadata,
        None => nothing_known(),
    }
}

/// What a line of the list of mounts tells, where it is whole.
fn read_mount_line(line: &str) -> (mount: Option<(Vec<String>, StateDirMountMetadata)>)
    ensures
        match mount {
            Some((point, metadata)) => mount_line(line@) == Some(
                MountLine { point: text::texts(point@), metadata: metadata@ },
            ),
            None => mount_line(line@) is None,
        },
{
    reveal(mount_line);
    let chars = chars_of(line);
    let separator = chars_of(" - ");
    proof {
        reveal_strlit(" - ");
    }
    let at: usize = match find_text(&chars, &separator) {
        Some(at) => at,
        None => {
            return None;
        },
    };
    assert(separator_at(line@) == at) by {
        let chosen = separator_at(line@);
        assert(parts::stands_at(line@, " - "@, at as int));
        if chosen < at {
            assert(!parts::stands_at(line@, " - "@, chosen));
        }
        if at < chosen {
            assert(!parts::stands_at(line@, " - "@, at as int));
        }
    }
    let front = text_between(&chars, 0, at);
    let back = text_between(&chars, at + 3, chars.len());
    assert(front@ =~= line@.take(at as int));
    assert(back@ =~= line@.skip(at + 3));
    let before = words_of(front.as_str());
    let after = words_of(back.as_str());
    if before.len() < 6 || after.len() < 3 {
        return None;
    }
    let ghost fields = text::texts(before@);
    assert(fields[0] == before@[0]@ && fields[4] == before@[4]@ && fields[5] == before@[5]@);
    let ghost ends = text::texts(after@);
    assert(ends[0] == after@[0]@ && ends[2] == after@[2]@);
    let point = path_components(decode_mountinfo_field(before[4].as_str()).as_str());
    let metadata = StateDirMountMetadata {
        filesystem_type: Some(after[0].clone()),
        mount_id: parse_unsigned(before[0].as_str(), u64::MAX),
        mount_options: sanitized_mount_options(before[5].as_str(), after[2].as_str()),
    };
    Some((point, metadata))
}

/// What is known of the mount that the directory `canonical` lies on, by the list of mounts
/// `mountinfo`.
pub fn state_dir_mount_metadata(canonical: &str, mountinfo: &str) -> (metadata:
    StateDirMountMetadata)
    ensures
        metadata@ == mount_of(canonical@, mountinfo@),
{
    let path = path_components(canonical);
    let list = lines_of(mountinfo);
    let ghost held = parts::lines(mountinfo@);
    let ghost deep = components(canonical@);
    let mut best: Option<(usize, StateDirMountMetadata)> = None;
    let mut i: usize = 0;
    while i < list.len()
        invariant
            i <= list@.len(),
            held == text::texts(list@),
            deep == text::texts(path@),
            match best_mount(deep, held.take(i as int)) {
                Some(mount) => (best matches Some((depth, metadata)) && depth == mount.point.len()
                    && metadata@ == mount.metadata),
                None => best is None,
            },
        decreases list@.len() - i,
    {
        assert(held.take(i + 1).drop_last() =~= held.take(i as int));
        assert(held.take(i + 1).last() == list@[i as int]@);
        if let Some((point, metadata)) = read_mount_line(list[i].as_str()) {
            if begins_with_components(&path, &point) {
                let deeper = match &best {
                    Some((depth, _)) => *depth < point.len(),
                    None => true,
                };
                if deeper {
                    best = Some((point.len(), metadata));
                }
            }
        }
        i = i + 1;
    }
    assert(held.take(i as int) =~= held);
    match best {
        Some((_, metadata)) => metadata,
        None => StateDirMountMetadata {
            filesystem_type: None,
            mount_id: None,
            mount_options: None,
        },
    }
}

/// Whether texts increase strictly.
pub open spec fn in_order(texts: Seq<Seq<char>>) -> bool {
    forall|i: int, j: int|
        0 <= i < j < texts.len() ==> text::precedes(#[trigger] texts[i], #[trigger] texts[j])
}

/// A text goes behind those that it does not precede and before those that it precedes.
proof fn lemma_text_slot(texts: Seq<Seq<char>>, text: Seq<char>)
    requires
        in_order(texts),
    ensures
        0 <= text_slot(texts, text) <= texts.len(),
        forall|i: int|
            0 <= i < text_slot(texts, text) ==> !text::precedes(text, #[trigger] texts[i]),
        forall|i: int|
            text_slot(texts, text) <= i < texts.len() ==> text::precedes(text, #[trigger] texts[i]),
    decreases texts.len(),
{
    if texts.len() > 0 {
        let front = texts.drop_last();
        if text::precedes(text, texts.last()) {
            lemma_text_slot(front, text);
            assert forall|i: int| 0 <= i < text_slot(texts, text) implies !text::precedes(
                text,
                #[trigger] texts[i],
            ) by {
                assert(front[i] == texts[i]);
            }
            assert forall|i: int| text_slot(texts, text) <= i < texts.len() implies text::precedes(
                text,
                #[trigger] texts[i],
            ) by {
                if i < front.len() {
                    assert(front[i] == texts[i]);
                }
            }
        } else {
            assert forall|i: int| 0 <= i < texts.len() implies !text::precedes(
                text,
                #[trigger] texts[i],
            ) by {
                if i < texts.len() - 1 && text::precedes(text, texts[i]) {
                    assert(text::precedes(texts[i], texts[texts.len() - 1]));
                    text::lemma_precedes_transitive(text, texts[i], texts.last());
                }
            }
        }
    }
}

/// Putting a text in keeps the order, and adds that text and no other.
proof fn lemma_with_text(texts: Seq<Seq<char>>, text: Seq<char>)
    requires
        in_order(texts),
    ensures
        in_order(with_text(texts, text)),
        forall|other: Seq<char>| #[trigger]
            with_text(texts, text).contains(other) <==> texts.contains(other) || other == text,
{
    let at = text_slot(texts, text);
    let result = with_text(texts, text);
    lemma_text_slot(texts, text);
    if at > 0 && texts[at - 1] == text {
        assert(result == texts);
    } else {
        assert forall|i: int, j: int| 0 <= i < j < result.len() implies text::precedes(
            #[trigger] result[i],
            #[trigger] result[j],
        ) by {
            if j == at {
                assert(result[i] == texts[i]);
                text::lemma_precedes_total(text, texts[i]);
                if texts[i] == text && i < at - 1 {
                    assert(text::precedes(texts[i], texts[at - 1]));
                }
            } else if i == at {
                assert(result[j] == texts[j - 1]);
            } else {
                assert(result[i] == texts[if i < at { i } else { i - 1 }]);
                assert(result[j] == texts[if j < at { j } else { j - 1 }]);
            }
        }
        assert(result[at] == text);
        assert forall|other: Seq<char>| #[trigger]
            result.contains(other) <==> texts.contains(other) || other == text by {
            if result.contains(other) {
                let i = choose|i: int| 0 <= i < result.len() && result[i] == other;
                if i != at {
                    assert(texts[if i < at { i } else { i - 1 }] == other);
                }
            }
            if texts.contains(other) {
                let i = choose|i: int| 0 <= i < texts.len() && texts[i] == other;
                assert(result[if i < at { i } else { i + 1 }] == other);
            }
        }
    }
}

/// Of the options of a mount exactly those with a known harmless key are told, each once and in
/// order.
pub proof fn law_only_safe_options_are_told(options: Seq<Seq<char>>)
    ensures
        in_order(safe_options(options)),
        forall|option: Seq<char>| #[trigger]
            safe_options(options).contains(option) <==> options.contains(option) && is_safe(option),
    decreases options.len(),
{
    if options.len() > 0 {
        let front = options.drop_last();
        let last = options.last();
        law_only_safe_options_are_told(front);
        if is_safe(last) {
            lemma_with_text(safe_options(front), last);
        }
        assert forall|option: Seq<char>| #[trigger]
            safe_options(options).contains(option) <==> options.contains(option) && is_safe(
                option,
            ) by {
            assert(safe_options(front).contains(option) <==> front.contains(option) && is_safe(
                option,
            ));
            assert(options =~= front.push(last));
            if front.contains(option) {
                let i = choose|i: int| 0 <= i < front.len() && front[i] == option;
                assert(options[i] == option);
            }
            if options.contains(option) && option != last {
                let i = choose|i: int| 0 <= i < options.len() && options[i] == option;
                assert(front[i] == option);
            }
            if option == last {
                assert(options[options.len() - 1] == option);
            }
        }
    }
}

/// A mount option is told by what stands in front of its first equals sign, if it has one, where
/// that is among the known harmless keys.
pub proof fn law_safe_options_have_harmless_keys(option: Seq<char>, key: Seq<char>, value: Seq<char>)
    requires
        !key.contains('='),
        option == key || option == key + seq!['='] + value,
    ensures
        is_safe(option) <==> seq![
            "async"@,
            "barrier"@,
            "commit"@,
            "data"@,
            "delalloc"@,
            "dirsync"@,
            "discard"@,
            "errors"@,
            "index"@,
            "journal_async_commit"@,
            "journal_checksum"@,
            "lazytime"@,
            "metacopy"@,
            "noatime"@,
            "nobarrier"@,
            "nodev"@,
            "nodelalloc"@,
            "nodiratime"@,
            "nodiscard"@,
            "noexec"@,
            "nosuid"@,
            "relatime"@,
            "redirect_dir"@,
            "ro"@,
            "rw"@,
            "strictatime"@,
            "sync"@,
            "volatile"@,
            "xino"@,
        ].contains(key),
{
    reveal(is_safe_key);
    parts::law_separators_part_texts(key, value, '=');
    assert(key + seq!['='] + value =~= key.push('=') + value);
    assert(option_key(option) == key);
    let keys = seq![
        "async"@,
        "barrier"@,
        "commit"@,
        "data"@,
        "delalloc"@,
        "dirsync"@,
        "discard"@,
        "errors"@,
        "index"@,
        "journal_async_commit"@,
        "journal_checksum"@,
        "lazytime"@,
        "metacopy"@,
        "noatime"@,
        "nobarrier"@,
        "nodev"@,
        "nodelalloc"@,
        "nodiratime"@,
        "nodiscard"@,
        "noexec"@,
        "nosuid"@,
        "relatime"@,
        "redirect_dir"@,
        "ro"@,
        "rw"@,
        "strictatime"@,
        "sync"@,
        "volatile"@,
        "xino"@,
    ];
    assert(keys.len() == 29);
    assert(keys[0] == "async"@ && keys[1] == "barrier"@ && keys[2] == "commit"@);
    assert(keys[3] == "data"@ && keys[4] == "delalloc"@ && keys[5] == "dirsync"@);
    assert(keys[6] == "discard"@ && keys[7] == "errors"@ && keys[8] == "index"@);
    assert(keys[9] == "journal_async_commit"@ && keys[10] == "journal_checksum"@);
    assert(keys[11] == "lazytime"@ && keys[12] == "metacopy"@ && keys[13] == "noatime"@);
    assert(keys[14] == "nobarrier"@ && keys[15] == "nodev"@ && keys[16] == "nodelalloc"@);
    assert(keys[17] == "nodiratime"@ && keys[18] == "nodiscard"@ && keys[19] == "noexec"@);
    assert(keys[20] == "nosuid"@ && keys[21] == "relatime"@ && keys[22] == "redirect_dir"@);
    assert(keys[23] == "ro"@ && keys[24] == "rw"@ && keys[25] == "strictatime"@);
    assert(keys[26] == "sync"@ && keys[27] == "volatile"@ && keys[28] == "xino"@);
}

/// The text that is told of the options of a mount and of its file system holds, between commas and
/// in order, exactly the harmless ones of both; where there are none, there is no text.
pub proof fn law_told_options_are_the_safe_ones(mount: Seq<char>, system: Seq<char>)
    ensures
        sanitized(mount, system) is None <==> forall|option: Seq<char>|
            #![trigger is_safe(option)]
            parts::split(mount, ',').contains(option) || parts::split(system, ',').contains(option)
                ==> !is_safe(option),
        sanitized(mount, system) matches Some(told) ==> in_order(parts::split(told, ',')) && forall|
            option: Seq<char>,
        |
            #![trigger parts::split(told, ',').contains(option)]
            parts::split(told, ',').contains(option) <==> is_safe(option) && (parts::split(
                mount,
                ',',
            ).contains(option) || parts::split(system, ',').contains(option)),
{
    let (a, b) = (parts::split(mount, ','), parts::split(system, ','));
    let safe = safe_options(a + b);
    law_only_safe_options_are_told(a + b);
    parts::lemma_split_free(mount, ',');
    parts::lemma_split_free(system, ',');
    assert forall|option: Seq<char>| #[trigger] (a + b).contains(option) <==> a.contains(option)
        || b.contains(option) by {
        if a.contains(option) {
            let i = choose|i: int| 0 <= i < a.len() && a[i] == option;
            assert((a + b)[i] == option);
        }
        if b.contains(option) {
            let i = choose|i: int| 0 <= i < b.len() && b[i] == option;
            assert((a + b)[a.len() + i] == option);
        }
        if (a + b).contains(option) {
            let i = choose|i: int| 0 <= i < (a + b).len() && (a + b)[i] == option;
            if i < a.len() {
                assert(a[i] == option);
            } else {
                assert(b[i - a.len()] == option);
            }
        }
    }
    assert forall|option: Seq<char>| #[trigger] safe.contains(option) <==> is_safe(option) && (
    a.contains(option) || b.contains(option)) by {
        assert((a + b).contains(option) <==> a.contains(option) || b.contains(option));
    }
    if safe.len() == 0 {
        assert forall|option: Seq<char>|
            #![trigger is_safe(option)]
            a.contains(option) || b.contains(option) implies !is_safe(option) by {
            assert(!safe.contains(option));
        }
    } else {
        assert(safe.contains(safe[0]));
        assert forall|i: int| 0 <= i < safe.len() implies !(#[trigger] safe[i]).contains(',') by {
            assert(safe.contains(safe[i]));
            if a.contains(safe[i]) {
                let j = choose|j: int| 0 <= j < a.len() && a[j] == safe[i];
                assert(!a[j].contains(','));
            } else {
                let j = choose|j: int| 0 <= j < b.len() && b[j] == safe[i];
                assert(!b[j].contains(','));
            }
        }
        parts::lemma_joined_split(safe, ',');
    }
}

/// The proper names among names are those of the front and those of the back.
proof fn lemma_proper_names(a: Seq<Seq<char>>, b: Seq<Seq<char>>)
    ensures
        proper_names(a + b) == proper_names(a) + proper_names(b),
    decreases b.len(),
{
    if b.len() == 0 {
        assert(a + b =~= a);
        assert(proper_names(a) + proper_names(b) =~= proper_names(a));
    } else {
        lemma_proper_names(a, b.drop_last());
        assert((a + b).drop_last() =~= a + b.drop_last());
        assert((a + b).last() == b.last());
        assert(proper_names(a + b) =~= proper_names(a) + proper_names(b));
    }
}

/// A slash leads from the components of a path to the name behind it. An empty name and a single dot
/// lead nowhere. A path that begins with a slash begins at the root.
pub proof fn law_paths_are_made_of_names(path: Seq<char>, name: Seq<char>)
    requires
        !name.contains('/'),
    ensures
        path.len() > 0 && name.len() > 0 && name != "."@ ==> components(path + seq!['/'] + name)
            == components(path).push(name),
        path.len() > 0 && (name.len() == 0 || name == "."@) ==> components(
            path + seq!['/'] + name,
        ) == components(path),
        name.len() > 0 && name != "."@ ==> components(seq!['/'] + name) == seq!["/"@, name],
        name.len() == 0 || name == "."@ ==> components(seq!['/'] + name) == seq!["/"@],
        name.len() > 0 ==> components(name) == seq![name],
        name.len() == 0 ==> components(name) == Seq::<Seq<char>>::empty(),
{
    reveal_strlit(".");
    let none = Seq::<char>::empty();
    let names = Seq::<Seq<char>>::empty();
    assert("."@.len() == 1);
    parts::law_separators_part_texts(path, name, '/');
    parts::law_separators_part_texts(name, name, '/');
    parts::law_separators_part_texts(none, name, '/');
    parts::lemma_split_joined(path, '/');
    assert(path + seq!['/'] + name =~= path.push('/') + name);
    assert(seq!['/'] + name =~= none.push('/') + name);
    assert(parts::split(none, '/') =~= seq![none]);
    let before = parts::split(path, '/');
    lemma_proper_names(before, seq![name]);
    lemma_proper_names(seq![none], seq![name]);
    assert(seq![name].drop_last() =~= names);
    assert(seq![none].drop_last() =~= names);
    assert(proper_names(names) =~= names);
    assert(proper_names(seq![none]) =~= names);
    let proper = proper_names(seq![name]);
    if name.len() > 0 && name != "."@ {
        assert(proper =~= seq![name]);
    } else {
        assert(proper =~= names);
    }
    assert((before + seq![name])[0] == before[0]);
    if path.len() > 0 {
        let longer = components(path.push('/') + name);
        if name.len() > 0 && name != "."@ {
            assert(longer =~= components(path).push(name));
        } else {
            assert(longer =~= components(path));
        }
    }
    let rooted = components(none.push('/') + name);
    assert((seq![none] + seq![name])[0] == none);
    assert(rooted =~= seq!["/"@] + proper);
    if name.len() > 0 && name != "."@ {
        assert(rooted =~= seq!["/"@, name]);
        assert(components(name) =~= seq![name]);
    } else {
        assert(rooted =~= seq!["/"@]);
        if name.len() == 0 {
            assert(components(name) =~= names);
        } else {
            assert(components(name) =~= seq![name]);
        }
    }
}

/// A path lies at or below another where its components are those of the other and any more.
pub proof fn law_paths_below_go_on(path: Seq<Seq<char>>, base: Seq<Seq<char>>)
    ensures
        lies_below(path, base) <==> exists|rest: Seq<Seq<char>>| path == #[trigger] (base + rest),
{
    if lies_below(path, base) {
        assert(path =~= path.take(base.len() as int) + path.skip(base.len() as int));
    }
    if exists|rest: Seq<Seq<char>>| path == #[trigger] (base + rest) {
        let rest = choose|rest: Seq<Seq<char>>| path == #[trigger] (base + rest);
        assert(path.take(base.len() as int) =~= base);
    }
}

/// The mount of a path is, of those in the list that the path lies on, the deepest, and of several as
/// deep the first; there is none exactly where the path lies on none.
pub proof fn law_deepest_mount_is_found(path: Seq<Seq<char>>, lines: Seq<Seq<char>>) -> (at: int)
    ensures
        best_mount(path, lines) is None <==> forall|i: int|
            0 <= i < lines.len() ==> !(mount_line(#[trigger] lines[i]) matches Some(mount)
                && lies_below(path, mount.point)),
        best_mount(path, lines) matches Some(found) ==> {
            &&& 0 <= at < lines.len()
            &&& mount_line(lines[at]) == Some(found)
            &&& lies_below(path, found.point)
            &&& forall|i: int|
                0 <= i < lines.len() ==> (mount_line(#[trigger] lines[i]) matches Some(mount) ==> (
                lies_below(path, mount.point) ==> mount.point.len() <= found.point.len() && (i < at
                    ==> mount.point.len() < found.point.len())))
        },
    decreases lines.len(),
{
    if lines.len() == 0 {
        0
    } else {
        let front = lines.drop_last();
        let at = law_deepest_mount_is_found(path, front);
        let last = lines.len() - 1;
        assert(forall|i: int| 0 <= i < last ==> #[trigger] lines[i] == front[i]);
        assert(lines.last() == lines[last]);
        let earlier = best_mount(path, front);
        if earlier is None {
            assert forall|i: int| 0 <= i < last implies !(mount_line(#[trigger] lines[i]) matches Some(
                mount,
            ) && lies_below(path, mount.point)) by {
                assert(lines[i] == front[i]);
            }
        }
        if mount_line(lines.last()) matches Some(mount) && lies_below(path, mount.point) && (
        earlier is None || earlier->0.point.len() < mount.point.len()) {
            last
        } else {
            at
        }
    }
}

/// A line of the list of mounts is told apart into the words in front of the first separator and
/// those behind it. It is whole where there are six of the ones and three of the others; then the
/// first word is the number, the fifth the mount point, the sixth the options of the mount, and
/// behind the separator the first is the type and the third the options of the file system.
pub proof fn law_mount_lines_are_read_by_position(line: Seq<char>, front: Seq<char>, back: Seq<char>)
    requires
        line == front + " - "@ + back,
        forall|at: int|
            0 <= at < front.len() ==> !(#[trigger] parts::stands_at(line, " - "@, at)),
    ensures
        mount_line(line) is Some <==> parts::words(front).len() >= 6 && parts::words(back).len()
            >= 3,
        mount_line(line) matches Some(mount) ==> {
            let (before, after) = (parts::words(front), parts::words(back));
            &&& mount.point == components(decoded_field(before[4]))
            &&& mount.metadata.filesystem_type == Some(after[0])
            &&& mount.metadata.mount_options == sanitized(before[5], after[2])
            &&& decimal::spelled(before[0], 0xffff_ffff_ffff_ffff) is None
                ==> mount.metadata.mount_id is None
            &&& decimal::spelled(before[0], 0xffff_ffff_ffff_ffff) matches Some(id)
                ==> mount.metadata.mount_id == Some(id as u64)
        },
{
    reveal(mount_line);
    reveal_strlit(" - ");
    let here = front.len() as int;
    assert(line.subrange(here, here + 3) =~= " - "@);
    assert(parts::stands_at(line, " - "@, here));
    let at = separator_at(line);
    assert(at == here) by {
        assert(parts::stands_at(line, " - "@, here) && forall|other: int|
            0 <= other < here ==> !#[trigger] parts::stands_at(line, " - "@, other));
        if at < here {
            assert(!parts::stands_at(line, " - "@, at));
        }
        if here < at {
            assert(!parts::stands_at(line, " - "@, here));
        }
    }
    assert(line.take(at) =~= front);
    assert(line.skip(at + 3) =~= back);
}

/// A line without a separator tells nothing, and of a path that lies on no mount nothing is known.
pub proof fn law_unknown_mounts(line: Seq<char>, path: Seq<char>, mountinfo: Seq<char>)
    ensures
        !parts::contains(line, " - "@) ==> mount_line(line) is None,
        best_mount(components(path), parts::lines(mountinfo)) is None ==> mount_of(path, mountinfo)
            == (MountView { filesystem_type: None, mount_id: None, mount_options: None }),
        best_mount(components(path), parts::lines(mountinfo)) matches Some(mount) ==> mount_of(
            path,
            mountinfo,
        ) == mount.metadata,
{
    reveal(mount_line);
}

}
