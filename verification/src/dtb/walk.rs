//! The form of a flattened device tree that can be read to its end.
//!
//! A blob is a header of ten big-endian words, a structure block of tagged
//! tokens and a strings block that holds the names of the properties. The
//! reader takes every token on trust, so a blob is checked here first:
//! [`is_readable`] decides whether its nodes can be listed, and [`is_walkable`]
//! whether the children of a node at a path can.
//!
//! What is asked is enough for the reader, and a little more than it relies on:
//! where nodes are listed, the cell counts of every node with children are to be a
//! word long, whichever node is searched for, and the nodes behind that node are
//! to be in order too; where a path leads nowhere, no alias is to be named like
//! it.

use vstd::prelude::*;
use vstd::slice::slice_subrange;
use vstd::utf8::*;

verus! {

/// Length in bytes of the header.
pub const HEADER_LEN: usize = 40;

/// First word of every blob.
pub const FDT_MAGIC: u32 = 0xd00d_feed;

/// Token that opens a node; its name follows.
pub const FDT_BEGIN_NODE: u32 = 1;

/// Token that closes a node.
pub const FDT_END_NODE: u32 = 2;

/// Token that opens a property; its length, name offset and value follow.
pub const FDT_PROP: u32 = 3;

/// Token without a meaning.
pub const FDT_NOP: u32 = 4;

/// Deepest nesting of nodes that the reader keeps track of.
pub const MAX_DEPTH: usize = 63;

/// The big-endian word at `at`.
pub open spec fn be32_at(s: Seq<u8>, at: int) -> int {
    s[at] * 0x100_0000 + s[at + 1] * 0x1_0000 + s[at + 2] * 0x100 + s[at + 3]
}

/// Start of the structure block.
pub open spec fn struct_start(s: Seq<u8>) -> int {
    be32_at(s, 8)
}

/// End of the structure block.
pub open spec fn struct_end(s: Seq<u8>) -> int {
    be32_at(s, 8) + be32_at(s, 36)
}

/// Start of the strings block.
pub open spec fn strings_start(s: Seq<u8>) -> int {
    be32_at(s, 12)
}

/// End of the strings block.
pub open spec fn strings_end(s: Seq<u8>) -> int {
    be32_at(s, 12) + be32_at(s, 32)
}

/// Position of the first zero byte in `from..end`, or `end` if there is none.
pub open spec fn nul_at(s: Seq<u8>, from: int, end: int) -> int
    decreases end - from,
{
    if from >= end {
        end
    } else if s[from] == 0 {
        from
    } else {
        nul_at(s, from + 1, end)
    }
}

/// A zero-terminated UTF-8 string stands at `from`, its terminator before `end`.
pub open spec fn utf8_cstr(s: Seq<u8>, from: int, end: int) -> bool {
    &&& nul_at(s, from, end) < end
    &&& valid_utf8(s.subrange(from, nul_at(s, from, end)))
}

/// `n` rounded up to a multiple of four.
pub open spec fn align4(n: int) -> int {
    (n + 3) / 4 * 4
}

/// A position in the structure block: none lies behind its end.
pub open spec fn clip(s: Seq<u8>, at: int) -> int {
    if at > struct_end(s) {
        struct_end(s)
    } else {
        at
    }
}

/// The given token stands at `at`.
pub open spec fn token_is(s: Seq<u8>, at: int, token: u32) -> bool {
    has_token(s, at) && be32_at(s, at) == token
}

/// A token stands at `at`.
pub open spec fn has_token(s: Seq<u8>, at: int) -> bool {
    at + 4 <= struct_end(s)
}

/// The name of a property at offset `off` of the strings block.
pub open spec fn prop_name(s: Seq<u8>, off: int) -> Seq<u8> {
    s.subrange(strings_start(s) + off, nul_at(s, strings_start(s) + off, strings_end(s)))
}

/// The property whose token stands at `at` can be read: its value lies in the
/// structure block, and its name is a string of the strings block, which lies in
/// the blob.
pub open spec fn prop_ok(s: Seq<u8>, at: int) -> bool {
    &&& at + 12 <= struct_end(s)
    &&& at + 12 + be32_at(s, at + 4) <= struct_end(s)
    &&& strings_end(s) <= s.len()
    &&& be32_at(s, at + 8) <= be32_at(s, 32)
    &&& utf8_cstr(s, strings_start(s) + be32_at(s, at + 8), strings_end(s))
}

/// The property whose token stands at `at` has the given name.
pub open spec fn prop_named(s: Seq<u8>, at: int, name: Seq<u8>) -> bool {
    prop_name(s, be32_at(s, at + 8)) == name
}

/// The property whose token stands at `at` is no cell count, or one word long at
/// least.
pub open spec fn cells_ok(s: Seq<u8>, at: int) -> bool {
    ||| be32_at(s, at + 4) >= 4
    ||| !prop_named(s, at, encode_utf8("#address-cells"@)) && !prop_named(
        s,
        at,
        encode_utf8("#size-cells"@),
    )
}

/// Position behind the property whose token stands at `at`.
pub open spec fn prop_end(s: Seq<u8>, at: int) -> int {
    clip(s, at + 12 + align4(be32_at(s, at + 4)))
}

/// The node whose token stands at `at` has a name that can be read.
pub open spec fn name_ok(s: Seq<u8>, at: int) -> bool {
    utf8_cstr(s, at + 4, struct_end(s))
}

/// Position behind the name of the node whose token stands at `at`.
pub open spec fn node_body(s: Seq<u8>, at: int) -> int {
    clip(s, at + 4 + align4(nul_at(s, at + 4, struct_end(s)) + 1 - (at + 4)))
}

/// Position of the first `@` in `from..end`, or `end` if there is none.
pub open spec fn at_sign(s: Seq<u8>, from: int, end: int) -> int
    decreases end - from,
{
    if from >= end {
        end
    } else if s[from] == 0x40 {
        from
    } else {
        at_sign(s, from + 1, end)
    }
}

/// The name of the node whose token stands at `at`, without its unit address.
pub open spec fn base_name(s: Seq<u8>, at: int) -> Seq<u8> {
    s.subrange(at + 4, at_sign(s, at + 4, nul_at(s, at + 4, struct_end(s))))
}

/// Position behind the tokens without a meaning from `at` on.
pub open spec fn nops_end(s: Seq<u8>, at: int) -> int
    decreases struct_end(s) - at,
{
    if token_is(s, at, FDT_NOP) {
        nops_end(s, at + 4)
    } else {
        at
    }
}

/// Position behind the properties from `at` on, if all can be read.
pub open spec fn props_end(s: Seq<u8>, at: int) -> Option<int>
    decreases struct_end(s) - at,
{
    if !token_is(s, at, FDT_PROP) {
        Some(at)
    } else if prop_ok(s, at) {
        props_end(s, prop_end(s, at))
    } else {
        None
    }
}

/// What is asked of the properties of a node.
pub enum Asked {
    /// That they can be read.
    Readable,
    /// That cell counts are long enough as well.
    Cells,
    /// That none has the given name as well.
    Unnamed(Seq<u8>),
}

/// The properties from `at` on are as asked, with tokens without a meaning
/// anywhere among them.
pub open spec fn all_props(s: Seq<u8>, at: int, asked: Asked) -> bool
    decreases struct_end(s) - at,
{
    if token_is(s, at, FDT_NOP) {
        all_props(s, at + 4, asked)
    } else if token_is(s, at, FDT_PROP) {
        &&& prop_ok(s, at)
        &&& match asked {
            Asked::Readable => true,
            Asked::Cells => cells_ok(s, at),
            Asked::Unnamed(name) => !prop_named(s, at, name),
        }
        &&& all_props(s, prop_end(s, at), asked)
    } else {
        true
    }
}

/// Position behind the node whose token stands at `at`, if it can be skipped: it
/// holds its properties, then its children, then its end, and tokens without a
/// meaning before its end only. So many nodes are around it.
pub open spec fn node_end(s: Seq<u8>, at: int, depth: int) -> Option<int>
    decreases struct_end(s) - at, 0int,
{
    if !name_ok(s, at) || depth >= MAX_DEPTH {
        None
    } else {
        match props_end(s, node_body(s, at)) {
            Some(props) => if at < props <= struct_end(s) {
                match children_end(s, props, depth + 1) {
                    Some(children) => if token_is(s, nops_end(s, children), FDT_END_NODE) {
                        Some(nops_end(s, children) + 4)
                    } else {
                        None
                    },
                    None => None,
                }
            } else {
                None
            },
            None => None,
        }
    }
}

/// Position behind the nodes from `at` on, if all can be skipped and another token
/// follows.
pub open spec fn children_end(s: Seq<u8>, at: int, depth: int) -> Option<int>
    decreases struct_end(s) - at, 1int,
{
    if !has_token(s, at) {
        None
    } else if be32_at(s, at) != FDT_BEGIN_NODE {
        Some(at)
    } else {
        match node_end(s, at, depth) {
            Some(next) => if at < next <= struct_end(s) {
                children_end(s, next, depth)
            } else {
                None
            },
            None => None,
        }
    }
}

/// What the search for a node comes to.
pub enum Search {
    /// The reader cannot go on.
    Stuck,
    /// There is no such node.
    Missing,
    /// There is, and its content starts here.
    Found(int),
}

/// What the search for a node among those from `at` on comes to: others are
/// skipped.
pub open spec fn find_child(s: Seq<u8>, at: int, name: Seq<u8>) -> Search
    decreases struct_end(s) - at,
{
    if !token_is(s, at, FDT_BEGIN_NODE) {
        Search::Missing
    } else if !name_ok(s, at) {
        Search::Stuck
    } else if base_name(s, at) == name {
        Search::Found(node_body(s, at))
    } else {
        match node_end(s, at, 1) {
            Some(next) => if at < next <= struct_end(s) {
                find_child(s, next, name)
            } else {
                Search::Stuck
            },
            None => Search::Stuck,
        }
    }
}

/// What the search for a node below the root node comes to. A root node with a
/// name of its own is skipped.
pub open spec fn find_below_root(s: Seq<u8>, name: Seq<u8>) -> Search {
    let root = nops_end(s, struct_start(s));
    if !token_is(s, root, FDT_BEGIN_NODE) {
        Search::Missing
    } else if !name_ok(s, root) {
        Search::Stuck
    } else if base_name(s, root).len() > 0 {
        if node_end(s, root, 0) is Some {
            Search::Missing
        } else {
            Search::Stuck
        }
    } else {
        match props_end(s, nops_end(s, node_body(s, root))) {
            Some(children) => find_child(s, children, name),
            None => Search::Stuck,
        }
    }
}

/// The nodes from `at` on can be listed with their properties, with tokens without
/// a meaning anywhere between them.
pub open spec fn children_ok(s: Seq<u8>, at: int) -> bool
    decreases struct_end(s) - at,
{
    if token_is(s, at, FDT_NOP) {
        children_ok(s, at + 4)
    } else if token_is(s, at, FDT_BEGIN_NODE) {
        match node_end(s, at, 2) {
            Some(next) => {
                &&& all_props(s, node_body(s, at), Asked::Readable)
                &&& at < next <= struct_end(s)
                &&& children_ok(s, next)
            },
            None => false,
        }
    } else {
        true
    }
}

/// The children of the node whose content starts at `body` can be listed.
pub open spec fn body_ok(s: Seq<u8>, body: int) -> bool {
    match props_end(s, nops_end(s, body)) {
        Some(children) => has_token(s, children) && children_ok(s, children),
        None => false,
    }
}

/// The blob carries a whole header, as large as it says.
pub open spec fn header_ok(s: Seq<u8>) -> bool {
    &&& s.len() >= HEADER_LEN
    &&& be32_at(s, 0) == FDT_MAGIC
    &&& be32_at(s, 4) <= s.len()
}

/// The header is whole, and the structure block lies in the blob.
pub open spec fn block_ok(s: Seq<u8>) -> bool {
    &&& header_ok(s)
    &&& struct_end(s) <= s.len()
}

/// The path leads from the root node to a node right below it, without a unit
/// address.
pub open spec fn is_short_path(path: Seq<char>) -> bool {
    let bytes = encode_utf8(path);
    &&& bytes.len() > 1
    &&& bytes[0] == 0x2f
    &&& forall|i: int| 1 <= i < bytes.len() ==> bytes[i] != 0x2f && bytes[i] != 0x40
}

/// The children of the node at a path can be listed: the nodes on the way to it
/// can be skipped, and so can its children. Where there is no such node, the same
/// holds of the way to the aliases, and the path is none of them.
pub open spec fn walkable(s: Seq<u8>, path: Seq<char>) -> bool {
    &&& block_ok(s)
    &&& is_short_path(path)
    &&& match find_below_root(s, encode_utf8(path).skip(1)) {
        Search::Found(body) => body_ok(s, body),
        Search::Missing => match find_below_root(s, encode_utf8("aliases"@)) {
            Search::Found(body) => all_props(s, body, Asked::Unnamed(encode_utf8(path))),
            Search::Missing => true,
            Search::Stuck => false,
        },
        Search::Stuck => false,
    }
}

/// From `at` on nodes are opened and closed in order, as far as the reader lists
/// them: it stops at a token that neither opens nor closes a node. The cell counts
/// of a node are for its children, so they matter only where it has one. So many
/// nodes are open.
pub open spec fn list_from(s: Seq<u8>, at: int, depth: int) -> bool
    decreases struct_end(s) - at,
{
    if token_is(s, at, FDT_END_NODE) {
        depth > 0 && list_from(s, at + 4, depth - 1)
    } else {
        let next = nops_end(s, at);
        token_is(s, next, FDT_BEGIN_NODE) ==> {
            &&& at <= next
            &&& name_ok(s, next)
            &&& depth < MAX_DEPTH
            &&& all_props(s, node_body(s, next), Asked::Readable)
            &&& match props_end(s, nops_end(s, node_body(s, next))) {
                Some(props) => {
                    &&& token_is(s, nops_end(s, props), FDT_BEGIN_NODE) ==> all_props(
                        s,
                        node_body(s, next),
                        Asked::Cells,
                    )
                    &&& next < props <= struct_end(s)
                    &&& list_from(s, props, depth + 1)
                },
                None => false,
            }
        }
    }
}

/// The nodes of the blob can be listed.
pub open spec fn readable(s: Seq<u8>) -> bool {
    block_ok(s) && list_from(s, struct_start(s), 0)
}

/// Reads the big-endian word at `at`.
pub fn read_be32(s: &[u8], at: usize) -> (word: u32)
    requires
        at + 4 <= s@.len(),
    ensures
        word == be32_at(s@, at as int),
{
    s[at] as u32 * 0x100_0000 + s[at + 1] as u32 * 0x1_0000 + s[at + 2] as u32 * 0x100 + s[at
        + 3] as u32
}

/// Finds the first zero byte in `from..end`.
fn find_nul(s: &[u8], from: usize, end: usize) -> (at: usize)
    requires
        from <= end <= s@.len(),
    ensures
        at == nul_at(s@, from as int, end as int),
        from <= at <= end,
{
    let mut i: usize = from;
    while i < end
        invariant
            from <= i <= end <= s@.len(),
            nul_at(s@, i as int, end as int) == nul_at(s@, from as int, end as int),
        decreases end - i,
    {
        if s[i] == 0 {
            return i;
        }
        i = i + 1;
    }
    end
}

/// Calls `std::str::from_utf8`, which succeeds exactly on valid UTF-8.
#[verifier::external_body]
fn is_utf8(bytes: &[u8]) -> (ok: bool)
    ensures
        ok == valid_utf8(bytes@),
{
    std::str::from_utf8(bytes).is_ok()
}

/// Tests whether the bytes `from..to` are UTF-8.
fn range_is_utf8(s: &[u8], from: usize, to: usize) -> (ok: bool)
    requires
        from <= to <= s@.len(),
    ensures
        ok == valid_utf8(s@.subrange(from as int, to as int)),
{
    is_utf8(slice_subrange(s, from, to))
}

/// Tests whether the bytes `from..to` are the given ones.
fn range_is_bytes(s: &[u8], from: usize, to: usize, bytes: &[u8]) -> (same: bool)
    requires
        from <= to <= s@.len(),
    ensures
        same <==> s@.subrange(from as int, to as int) == bytes@,
{
    let ghost window = s@.subrange(from as int, to as int);
    if to - from != bytes.len() {
        assert(window.len() != bytes@.len());
        return false;
    }
    let mut i: usize = 0;
    while i < bytes.len()
        invariant
            i <= bytes@.len() == to - from,
            from <= to <= s@.len(),
            window == s@.subrange(from as int, to as int),
            forall|j: int| 0 <= j < i ==> window[j] == bytes@[j],
        decreases bytes@.len() - i,
    {
        if s[from + i] != bytes[i] {
            assert(window[i as int] != bytes@[i as int]);
            return false;
        }
        i = i + 1;
    }
    assert(window =~= bytes@);
    true
}

/// Tests whether the bytes `from..to` are those of `text`.
pub(crate) fn range_is(s: &[u8], from: usize, to: usize, text: &str) -> (same: bool)
    requires
        from <= to <= s@.len(),
    ensures
        same <==> s@.subrange(from as int, to as int) == encode_utf8(text@),
{
    range_is_bytes(s, from, to, text.as_bytes())
}

/// Finds the first `@` in `from..end`.
fn find_at_sign(s: &[u8], from: usize, end: usize) -> (at: usize)
    requires
        from <= end <= s@.len(),
    ensures
        at == at_sign(s@, from as int, end as int),
        from <= at <= end,
{
    let mut i: usize = from;
    while i < end
        invariant
            from <= i <= end <= s@.len(),
            at_sign(s@, i as int, end as int) == at_sign(s@, from as int, end as int),
        decreases end - i,
    {
        if s[i] == 0x40 {
            return i;
        }
        i = i + 1;
    }
    end
}

/// Bytes that bring `len` up to a multiple of four.
fn padding(len: usize) -> (pad: usize)
    ensures
        pad < 4,
        len + pad == align4(len as int),
{
    (4 - len % 4) % 4
}

/// `next` is the position that a spec function gives, if it gives one.
spec fn same_end(next: Option<usize>, end: Option<int>) -> bool {
    &&& next is Some <==> end is Some
    &&& next matches Some(n) ==> end == Some(n as int)
}

/// A blob whose structure block lies in it, with the bounds of the blocks; no
/// strings block if that does not.
struct Blob<'a> {
    bytes: &'a [u8],
    end: usize,
    strings: Option<(usize, usize)>,
}

impl<'a> Blob<'a> {
    spec fn wf(&self) -> bool {
        &&& block_ok(self.bytes@)
        &&& self.end == struct_end(self.bytes@)
        &&& self.strings is Some <==> strings_end(self.bytes@) <= self.bytes@.len()
        &&& self.strings matches Some((from, to)) ==> from == strings_start(self.bytes@) && to
            == strings_end(self.bytes@)
    }

    /// Finds the structure block of a blob.
    fn open(bytes: &'a [u8]) -> (blob: Option<Blob<'a>>)
        ensures
            blob is Some <==> block_ok(bytes@),
            blob matches Some(b) ==> b.wf() && b.bytes == bytes,
    {
        let total: usize = bytes.len();
        if total < HEADER_LEN || read_be32(bytes, 0) != FDT_MAGIC || read_be32(bytes, 4) as usize
            > total {
            return None;
        }
        let start: usize = read_be32(bytes, 8) as usize;
        let size: usize = read_be32(bytes, 36) as usize;
        let strings: usize = read_be32(bytes, 12) as usize;
        let strings_size: usize = read_be32(bytes, 32) as usize;
        if start > total || size > total - start {
            return None;
        }
        let block: Option<(usize, usize)> = if strings > total || strings_size > total - strings {
            None
        } else {
            Some((strings, strings + strings_size))
        };
        Some(Blob { bytes, end: start + size, strings: block })
    }

    /// Tests whether the given token stands at a position.
    fn token_is(&self, at: usize, token: u32) -> (yes: bool)
        requires
            self.wf(),
            at <= self.end,
        ensures
            yes == token_is(self.bytes@, at as int, token),
    {
        self.end - at >= 4 && read_be32(self.bytes, at) == token
    }

    /// The position brought up to a multiple of four bytes behind `from`, or the
    /// end of the structure block if that comes first.
    fn aligned(&self, from: usize, len: usize) -> (next: usize)
        requires
            self.wf(),
            from + len <= self.end,
        ensures
            next == clip(self.bytes@, from + align4(len as int)),
            from + len <= next <= self.end,
    {
        let pad: usize = padding(len);
        let at: usize = from + len;
        if self.end - at < pad {
            self.end
        } else {
            at + pad
        }
    }

    /// Steps over tokens without a meaning.
    fn skip_nops(&self, at: usize) -> (next: usize)
        requires
            self.wf(),
            at <= self.end,
        ensures
            next == nops_end(self.bytes@, at as int),
            at <= next <= self.end,
    {
        let mut i: usize = at;
        while self.token_is(i, FDT_NOP)
            invariant
                self.wf(),
                at <= i <= self.end,
                nops_end(self.bytes@, i as int) == nops_end(self.bytes@, at as int),
            decreases self.end - i,
        {
            i = i + 4;
        }
        i
    }

    /// Steps over a property, if it can be read.
    fn skip_prop(&self, at: usize) -> (next: Option<usize>)
        requires
            self.wf(),
            token_is(self.bytes@, at as int, FDT_PROP),
        ensures
            next is Some <==> prop_ok(self.bytes@, at as int),
            next matches Some(n) ==> n == prop_end(self.bytes@, at as int) && at < n <= self.end,
    {
        let s: &[u8] = self.bytes;
        if self.end - at < 12 {
            return None;
        }
        let len: usize = read_be32(s, at + 4) as usize;
        let off: usize = read_be32(s, at + 8) as usize;
        let (strings, strings_end): (usize, usize) = match self.strings {
            Some(block) => block,
            None => {
                return None;
            },
        };
        if self.end - (at + 12) < len || off > strings_end - strings {
            return None;
        }
        let from: usize = strings + off;
        let nul: usize = find_nul(s, from, strings_end);
        if nul == strings_end || !range_is_utf8(s, from, nul) {
            return None;
        }
        Some(self.aligned(at + 12, len))
    }

    /// Tests whether a property that can be read has the given name.
    fn prop_named(&self, at: usize, name: &str) -> (yes: bool)
        requires
            self.wf(),
            token_is(self.bytes@, at as int, FDT_PROP),
            prop_ok(self.bytes@, at as int),
        ensures
            yes == prop_named(self.bytes@, at as int, encode_utf8(name@)),
    {
        let s: &[u8] = self.bytes;
        match self.strings {
            Some((strings, strings_end)) => {
                let from: usize = strings + read_be32(s, at + 8) as usize;
                let nul: usize = find_nul(s, from, strings_end);
                range_is(s, from, nul, name)
            },
            None => false,
        }
    }

    /// Steps over properties, if all can be read.
    fn skip_props(&self, at: usize) -> (next: Option<usize>)
        requires
            self.wf(),
            at <= self.end,
        ensures
            same_end(next, props_end(self.bytes@, at as int)),
            next matches Some(n) ==> at <= n <= self.end,
    {
        let mut i: usize = at;
        while self.token_is(i, FDT_PROP)
            invariant
                self.wf(),
                at <= i <= self.end,
                props_end(self.bytes@, i as int) == props_end(self.bytes@, at as int),
            decreases self.end - i,
        {
            match self.skip_prop(i) {
                Some(next) => {
                    i = next;
                },
                None => {
                    return None;
                },
            }
        }
        Some(i)
    }

    /// Decides [`all_props`]: with cell counts that are long enough, or without a
    /// property of some name.
    fn check_props(&self, at: usize, cells: bool, unnamed: Option<&str>) -> (ok: bool)
        requires
            self.wf(),
            at <= self.end,
        ensures
            ok == all_props(self.bytes@, at as int, asked_for(cells, unnamed)),
    {
        let ghost asked = asked_for(cells, unnamed);
        let mut i: usize = at;
        loop
            invariant
                self.wf(),
                at <= i <= self.end,
                asked == asked_for(cells, unnamed),
                all_props(self.bytes@, i as int, asked) == all_props(
                    self.bytes@,
                    at as int,
                    asked,
                ),
            decreases self.end - i,
        {
            if self.token_is(i, FDT_NOP) {
                i = i + 4;
            } else if self.token_is(i, FDT_PROP) {
                match self.skip_prop(i) {
                    Some(next) => {
                        if let Some(name) = unnamed {
                            if self.prop_named(i, name) {
                                return false;
                            }
                        } else if cells && read_be32(self.bytes, i + 4) < 4 && (self.prop_named(
                            i,
                            "#address-cells",
                        ) || self.prop_named(i, "#size-cells")) {
                            return false;
                        }
                        i = next;
                    },
                    None => {
                        return false;
                    },
                }
            } else {
                return true;
            }
        }
    }

    /// Steps over the name of a node, if it can be read.
    fn skip_name(&self, at: usize) -> (next: Option<usize>)
        requires
            self.wf(),
            token_is(self.bytes@, at as int, FDT_BEGIN_NODE),
        ensures
            next is Some <==> name_ok(self.bytes@, at as int),
            next matches Some(n) ==> n == node_body(self.bytes@, at as int) && at < n <= self.end,
    {
        let nul: usize = find_nul(self.bytes, at + 4, self.end);
        if nul == self.end || !range_is_utf8(self.bytes, at + 4, nul) {
            return None;
        }
        Some(self.aligned(at + 4, nul + 1 - (at + 4)))
    }

    /// Tests whether a node has the given name, but for its unit address.
    fn node_named(&self, at: usize, name: &[u8]) -> (yes: bool)
        requires
            self.wf(),
            token_is(self.bytes@, at as int, FDT_BEGIN_NODE),
        ensures
            yes == (base_name(self.bytes@, at as int) == name@),
    {
        let nul: usize = find_nul(self.bytes, at + 4, self.end);
        let to: usize = find_at_sign(self.bytes, at + 4, nul);
        range_is_bytes(self.bytes, at + 4, to, name)
    }

    /// Steps over a node, if it can be skipped.
    fn skip_node(&self, at: usize, depth: usize) -> (next: Option<usize>)
        requires
            self.wf(),
            token_is(self.bytes@, at as int, FDT_BEGIN_NODE),
            depth <= MAX_DEPTH,
        ensures
            same_end(next, node_end(self.bytes@, at as int, depth as int)),
            next matches Some(n) ==> at < n <= self.end,
        decreases MAX_DEPTH - depth,
    {
        if depth == MAX_DEPTH {
            return None;
        }
        let body: usize = match self.skip_name(at) {
            Some(body) => body,
            None => {
                return None;
            },
        };
        let props: usize = match self.skip_props(body) {
            Some(props) => props,
            None => {
                return None;
            },
        };
        let mut i: usize = props;
        while self.token_is(i, FDT_BEGIN_NODE)
            invariant
                self.wf(),
                at < props <= i <= self.end,
                depth < MAX_DEPTH,
                children_end(self.bytes@, i as int, depth + 1) == children_end(
                    self.bytes@,
                    props as int,
                    depth + 1,
                ),
                name_ok(self.bytes@, at as int),
                props_end(self.bytes@, node_body(self.bytes@, at as int)) == Some(props as int),
            decreases self.end - i,
        {
            match self.skip_node(i, depth + 1) {
                Some(next) => {
                    i = next;
                },
                None => {
                    return None;
                },
            }
        }
        if self.end - i < 4 {
            return None;
        }
        let close: usize = self.skip_nops(i);
        if self.token_is(close, FDT_END_NODE) {
            Some(close + 4)
        } else {
            None
        }
    }

    /// Searches for a node below the root node.
    fn find(&self, name: &[u8]) -> (found: Option<Option<usize>>)
        requires
            self.wf(),
        ensures
            match find_below_root(self.bytes@, name@) {
                Search::Stuck => found is None,
                Search::Missing => found == Some(None::<usize>),
                Search::Found(body) => found matches Some(Some(at)) && at == body && at
                    <= self.end,
            },
    {
        let start: usize = read_be32(self.bytes, 8) as usize;
        let root: usize = self.skip_nops(start);
        if !self.token_is(root, FDT_BEGIN_NODE) {
            return Some(None);
        }
        let body: usize = match self.skip_name(root) {
            Some(body) => body,
            None => {
                return None;
            },
        };
        let nul: usize = find_nul(self.bytes, root + 4, self.end);
        let to: usize = find_at_sign(self.bytes, root + 4, nul);
        if to > root + 4 {
            return match self.skip_node(root, 0) {
                Some(_) => Some(None),
                None => None,
            };
        }
        let children: usize = match self.skip_props(self.skip_nops(body)) {
            Some(children) => children,
            None => {
                return None;
            },
        };
        let ghost sought = find_child(self.bytes@, children as int, name@);
        let mut i: usize = children;
        while self.token_is(i, FDT_BEGIN_NODE)
            invariant
                self.wf(),
                i <= self.end,
                find_child(self.bytes@, i as int, name@) == sought,
                sought == find_below_root(self.bytes@, name@),
            decreases self.end - i,
        {
            match self.skip_name(i) {
                Some(inner) => {
                    if self.node_named(i, name) {
                        return Some(Some(inner));
                    }
                },
                None => {
                    return None;
                },
            }
            match self.skip_node(i, 1) {
                Some(next) => {
                    i = next;
                },
                None => {
                    return None;
                },
            }
        }
        Some(None)
    }

    /// Decides [`body_ok`].
    fn check_body(&self, body: usize) -> (ok: bool)
        requires
            self.wf(),
            body <= self.end,
        ensures
            ok == body_ok(self.bytes@, body as int),
    {
        let children: usize = match self.skip_props(self.skip_nops(body)) {
            Some(children) => children,
            None => {
                return false;
            },
        };
        if self.end - children < 4 {
            return false;
        }
        let mut i: usize = children;
        loop
            invariant
                self.wf(),
                i <= self.end,
                body_ok(self.bytes@, body as int) == children_ok(self.bytes@, i as int),
            decreases self.end - i,
        {
            if self.token_is(i, FDT_NOP) {
                i = i + 4;
            } else if self.token_is(i, FDT_BEGIN_NODE) {
                match self.skip_node(i, 2) {
                    Some(next) => {
                        let inner: usize = match self.skip_name(i) {
                            Some(inner) => inner,
                            None => {
                                return false;
                            },
                        };
                        if !self.check_props(inner, false, None) {
                            return false;
                        }
                        i = next;
                    },
                    None => {
                        return false;
                    },
                }
            } else {
                return true;
            }
        }
    }

    /// Decides whether the nodes can be listed.
    fn check_list(&self) -> (ok: bool)
        requires
            self.wf(),
        ensures
            ok == readable(self.bytes@),
    {
        let mut i: usize = read_be32(self.bytes, 8) as usize;
        let mut depth: usize = 0;
        loop
            invariant
                self.wf(),
                i <= self.end,
                depth <= MAX_DEPTH,
                list_from(self.bytes@, i as int, depth as int) == readable(self.bytes@),
            decreases self.end - i,
        {
            if self.token_is(i, FDT_END_NODE) {
                if depth == 0 {
                    return false;
                }
                i = i + 4;
                depth = depth - 1;
            } else {
                let next: usize = self.skip_nops(i);
                if !self.token_is(next, FDT_BEGIN_NODE) {
                    return true;
                }
                if depth == MAX_DEPTH {
                    return false;
                }
                let body: usize = match self.skip_name(next) {
                    Some(body) => body,
                    None => {
                        return false;
                    },
                };
                if !self.check_props(body, false, None) {
                    return false;
                }
                match self.skip_props(self.skip_nops(body)) {
                    Some(props) => {
                        let inner: usize = self.skip_nops(props);
                        if self.token_is(inner, FDT_BEGIN_NODE) && !self.check_props(
                            body,
                            true,
                            None,
                        ) {
                            return false;
                        }
                        i = props;
                    },
                    None => {
                        return false;
                    },
                }
                depth = depth + 1;
            }
        }
    }
}

/// What is asked of properties.
spec fn asked_for(cells: bool, unnamed: Option<&str>) -> Asked {
    match unnamed {
        Some(name) => Asked::Unnamed(encode_utf8(name@)),
        None => if cells {
            Asked::Cells
        } else {
            Asked::Readable
        },
    }
}

/// Decides whether a path leads to a node right below the root node, without a
/// unit address.
fn short_path(path: &str) -> (ok: bool)
    ensures
        ok == is_short_path(path@),
{
    let bytes: &[u8] = path.as_bytes();
    if bytes.len() < 2 || bytes[0] != 0x2f {
        return false;
    }
    let mut i: usize = 1;
    while i < bytes.len()
        invariant
            1 <= i <= bytes@.len(),
            bytes@ == encode_utf8(path@),
            forall|j: int| 1 <= j < i ==> bytes@[j] != 0x2f && bytes@[j] != 0x40,
        decreases bytes@.len() - i,
    {
        if bytes[i] == 0x2f || bytes[i] == 0x40 {
            return false;
        }
        i = i + 1;
    }
    true
}

/// Decides whether the nodes of the blob can be listed.
pub fn is_readable(s: &[u8]) -> (ok: bool)
    ensures
        ok == readable(s@),
{
    match Blob::open(s) {
        Some(blob) => blob.check_list(),
        None => false,
    }
}

/// Decides whether the children of the node at a path can be listed.
pub fn is_walkable(s: &[u8], path: &str) -> (ok: bool)
    ensures
        ok == walkable(s@, path@),
{
    if !short_path(path) {
        return false;
    }
    let blob: Blob = match Blob::open(s) {
        Some(blob) => blob,
        None => {
            return false;
        },
    };
    let bytes: &[u8] = path.as_bytes();
    let name: &[u8] = slice_subrange(bytes, 1, bytes.len());
    assert(name@ =~= encode_utf8(path@).skip(1));
    match blob.find(name) {
        Some(Some(body)) => blob.check_body(body),
        Some(None) => match blob.find("aliases".as_bytes()) {
            Some(Some(body)) => blob.check_props(body, false, Some(path)),
            Some(None) => true,
            None => false,
        },
        None => false,
    }
}

/// A word has its highest byte first, and the blocks of a blob lie where the words of
/// its header say.
pub proof fn lemma_words_and_blocks(s: Seq<u8>, at: int)
    ensures
        be32_at(s, at) == ((s[at] * 256 + s[at + 1]) * 256 + s[at + 2]) * 256 + s[at + 3],
        struct_start(s) == be32_at(s, 8),
        struct_end(s) - struct_start(s) == be32_at(s, 36),
        strings_start(s) == be32_at(s, 12),
        strings_end(s) - strings_start(s) == be32_at(s, 32),
{
}

/// A string ends at the first zero, and a name without its unit address at the first
/// `@`; without one they go on to the end.
pub proof fn lemma_where_strings_end(s: Seq<u8>, from: int, end: int)
    requires
        from <= end,
    ensures
        from <= nul_at(s, from, end) <= end,
        nul_at(s, from, end) < end ==> s[nul_at(s, from, end)] == 0,
        forall|i: int| from <= i < nul_at(s, from, end) ==> #[trigger] s[i] != 0,
        from <= at_sign(s, from, end) <= end,
        at_sign(s, from, end) < end ==> s[at_sign(s, from, end)] == 0x40,
        forall|i: int| from <= i < at_sign(s, from, end) ==> #[trigger] s[i] != 0x40,
    decreases end - from,
{
    if from < end {
        lemma_where_strings_end(s, from + 1, end);
    }
}

/// Lengths are rounded up to the next multiple of four, and positions held back at
/// the end of the structure block.
pub proof fn lemma_rounding(s: Seq<u8>, n: int)
    ensures
        align4(n) % 4 == 0,
        n <= align4(n) < n + 4,
        clip(s, n) <= n,
        clip(s, n) <= struct_end(s),
        clip(s, n) == n || clip(s, n) == struct_end(s),
{
}

/// A token stands wherever four bytes of the structure block are left.
pub proof fn lemma_where_tokens_stand(s: Seq<u8>, at: int, token: u32)
    ensures
        has_token(s, at) <==> at + 4 <= be32_at(s, 8) + be32_at(s, 36),
        token_is(s, at, token) <==> at + 4 <= be32_at(s, 8) + be32_at(s, 36) && be32_at(s, at)
            == token,
{
}

/// A string can be read exactly if a zero ends it in time and what comes before the
/// zero is UTF-8.
pub proof fn lemma_which_strings_can_be_read(s: Seq<u8>, from: int, end: int, nul: int)
    requires
        from <= nul < end,
        s[nul] == 0,
        forall|i: int| from <= i < nul ==> #[trigger] s[i] != 0,
    ensures
        nul_at(s, from, end) == nul,
        utf8_cstr(s, from, end) <==> valid_utf8(s.subrange(from, nul)),
{
    lemma_where_strings_end(s, from, end);
    if nul_at(s, from, end) < nul {
        assert(s[nul_at(s, from, end)] != 0);
    }
}

/// A string without a zero cannot be read.
pub proof fn lemma_endless_string_cannot_be_read(s: Seq<u8>, from: int, end: int)
    requires
        from <= end,
        forall|i: int| from <= i < end ==> #[trigger] s[i] != 0,
    ensures
        !utf8_cstr(s, from, end),
{
    lemma_where_strings_end(s, from, end);
}

/// Which properties can be read: the value lies in the structure block, and the name
/// is a string of the strings block. Neither what the name is nor what the value
/// holds matters.
pub proof fn lemma_which_properties_can_be_read(s: Seq<u8>, at: int)
    ensures
        prop_ok(s, at) <==> {
            &&& at + 12 <= be32_at(s, 8) + be32_at(s, 36)
            &&& at + 12 + be32_at(s, at + 4) <= be32_at(s, 8) + be32_at(s, 36)
            &&& be32_at(s, 12) + be32_at(s, 32) <= s.len()
            &&& be32_at(s, at + 8) <= be32_at(s, 32)
            &&& utf8_cstr(
                s,
                be32_at(s, 12) + be32_at(s, at + 8),
                be32_at(s, 12) + be32_at(s, 32),
            )
        },
{
}

/// A property is named by the string at its offset in the strings block, and a cell
/// count that is under a word long is the only one that cannot be used.
pub proof fn lemma_names_of_properties(s: Seq<u8>, at: int, nul: int, name: Seq<u8>)
    requires
        be32_at(s, 12) + be32_at(s, at + 8) <= nul < be32_at(s, 12) + be32_at(s, 32),
        s[nul] == 0,
        forall|i: int|
            be32_at(s, 12) + be32_at(s, at + 8) <= i < nul ==> #[trigger] s[i] != 0,
    ensures
        ({
            let found = s.subrange(be32_at(s, 12) + be32_at(s, at + 8), nul);
            &&& prop_named(s, at, name) <==> found == name
            &&& cells_ok(s, at) <==> be32_at(s, at + 4) >= 4 || found != encode_utf8(
                "#address-cells"@,
            ) && found != encode_utf8("#size-cells"@)
        }),
{
    lemma_which_strings_can_be_read(
        s,
        be32_at(s, 12) + be32_at(s, at + 8),
        be32_at(s, 12) + be32_at(s, 32),
        nul,
    );
}

/// Where the next token stands: behind a property its value, behind the token of a
/// node its name with the zero, each rounded up to a word, but not behind the end of
/// the block.
pub proof fn lemma_where_the_next_token_stands(s: Seq<u8>, at: int, nul: int)
    requires
        at + 4 <= nul < be32_at(s, 8) + be32_at(s, 36),
        s[nul] == 0,
        forall|i: int| at + 4 <= i < nul ==> #[trigger] s[i] != 0,
    ensures
        ({
            let end = be32_at(s, 8) + be32_at(s, 36);
            let len = be32_at(s, at + 4);
            let value = at + 12 + (len + 3) / 4 * 4;
            let name = at + 4 + (nul - at) / 4 * 4;
            &&& value <= end ==> prop_end(s, at) == value
            &&& value > end ==> prop_end(s, at) == end
            &&& name <= end ==> node_body(s, at) == name
            &&& name > end ==> node_body(s, at) == end
            &&& name_ok(s, at) <==> valid_utf8(s.subrange(at + 4, nul))
        }),
{
    lemma_which_strings_can_be_read(s, at + 4, struct_end(s), nul);
}

/// The name of a node without its unit address is what comes before the first `@`.
pub proof fn lemma_base_names(s: Seq<u8>, at: int, nul: int, stop: int)
    requires
        at + 4 <= stop <= nul < be32_at(s, 8) + be32_at(s, 36),
        s[nul] == 0,
        forall|i: int| at + 4 <= i < nul ==> #[trigger] s[i] != 0,
        forall|i: int| at + 4 <= i < stop ==> #[trigger] s[i] != 0x40,
        stop < nul ==> s[stop] == 0x40,
    ensures
        base_name(s, at) == s.subrange(at + 4, stop),
{
    lemma_which_strings_can_be_read(s, at + 4, struct_end(s), nul);
    lemma_where_strings_end(s, at + 4, nul);
    let sign = at_sign(s, at + 4, nul);
    if sign < stop {
        assert(s[sign] != 0x40);
    } else if stop < sign {
        assert(s[stop] != 0x40);
    }
}

/// Tokens without a meaning are passed, and no other is.
pub proof fn lemma_nops_are_passed(s: Seq<u8>, at: int)
    ensures
        at + 4 <= be32_at(s, 8) + be32_at(s, 36) && be32_at(s, at) == 4 ==> nops_end(s, at)
            == nops_end(s, at + 4),
        at + 4 > be32_at(s, 8) + be32_at(s, 36) || be32_at(s, at) != 4 ==> nops_end(s, at) == at,
{
}

/// Properties are passed one by one as long as they can be read; one that cannot
/// stops the reader, and any other token ends them.
pub proof fn lemma_properties_are_passed(s: Seq<u8>, at: int)
    requires
        struct_start(s) <= at,
    ensures
        ({
            let is_prop = at + 4 <= be32_at(s, 8) + be32_at(s, 36) && be32_at(s, at) == 3;
            &&& !is_prop ==> props_end(s, at) == Some(at)
            &&& is_prop && prop_ok(s, at) ==> props_end(s, at) == props_end(s, prop_end(s, at))
            &&& is_prop && !prop_ok(s, at) ==> props_end(s, at) is None
        }),
{
}

/// What is asked of the properties of a node is asked of each of them, and of nothing
/// else: tokens without a meaning are passed, and any other token ends them.
pub proof fn lemma_each_property_is_asked(s: Seq<u8>, at: int, name: Seq<u8>)
    requires
        struct_start(s) <= at,
    ensures
        ({
            let there = at + 4 <= be32_at(s, 8) + be32_at(s, 36);
            let next = prop_end(s, at);
            &&& there && be32_at(s, at) == 4 ==> forall|asked: Asked| #[trigger]
                all_props(s, at, asked) == all_props(s, at + 4, asked)
            &&& there && be32_at(s, at) == 3 ==> {
                &&& all_props(s, at, Asked::Readable) <==> prop_ok(s, at) && all_props(
                    s,
                    next,
                    Asked::Readable,
                )
                &&& all_props(s, at, Asked::Cells) <==> prop_ok(s, at) && cells_ok(s, at)
                    && all_props(s, next, Asked::Cells)
                &&& all_props(s, at, Asked::Unnamed(name)) <==> prop_ok(s, at) && !prop_named(
                    s,
                    at,
                    name,
                ) && all_props(s, next, Asked::Unnamed(name))
            }
            &&& !there || be32_at(s, at) != 3 && be32_at(s, at) != 4 ==> forall|asked: Asked|
                #[trigger] all_props(s, at, asked)
        }),
{
}

/// A node can be skipped exactly if its name can be read, fewer than 63 nodes are
/// around it, its properties and its children can be passed, and its end follows,
/// with tokens without a meaning before it. What it is called and what its
/// properties hold does not matter.
pub proof fn lemma_which_nodes_can_be_skipped(s: Seq<u8>, at: int, depth: int, body: int, end: int)
    requires
        struct_start(s) <= at,
        at + 4 <= struct_end(s),
        name_ok(s, at),
        depth < 63,
        props_end(s, node_body(s, at)) == Some(body),
        at < body <= struct_end(s),
        children_end(s, body, depth + 1) == Some(end),
    ensures
        ({
            let close = nops_end(s, end);
            let closed = close + 4 <= be32_at(s, 8) + be32_at(s, 36) && be32_at(s, close) == 2;
            &&& closed ==> node_end(s, at, depth) == Some(close + 4)
            &&& !closed ==> node_end(s, at, depth) is None
        }),
{
}

/// A node cannot be skipped if its name cannot be read, 63 nodes are around it, or
/// its properties or its children cannot be passed.
pub proof fn lemma_which_nodes_cannot_be_skipped(s: Seq<u8>, at: int, depth: int, body: int)
    ensures
        !name_ok(s, at) ==> node_end(s, at, depth) is None,
        depth >= 63 ==> node_end(s, at, depth) is None,
        props_end(s, node_body(s, at)) is None ==> node_end(s, at, depth) is None,
        props_end(s, node_body(s, at)) == Some(body) && children_end(s, body, depth + 1) is None
            ==> node_end(s, at, depth) is None,
{
}

/// Nodes are passed one by one, and any other token ends them; without a token the
/// reader is stuck.
pub proof fn lemma_nodes_are_passed(s: Seq<u8>, at: int, depth: int, next: int)
    ensures
        at + 4 > be32_at(s, 8) + be32_at(s, 36) ==> children_end(s, at, depth) is None,
        at + 4 <= be32_at(s, 8) + be32_at(s, 36) && be32_at(s, at) != 1 ==> children_end(
            s,
            at,
            depth,
        ) == Some(at),
        at + 4 <= be32_at(s, 8) + be32_at(s, 36) && be32_at(s, at) == 1 && node_end(s, at, depth)
            == Some(next) && at < next <= struct_end(s) ==> children_end(s, at, depth)
            == children_end(s, next, depth),
        at + 4 <= be32_at(s, 8) + be32_at(s, 36) && be32_at(s, at) == 1 && node_end(
            s,
            at,
            depth,
        ) is None ==> children_end(s, at, depth) is None,
{
}

/// A search stops at the first node of the name, goes past the others, and finds
/// nothing where no node is left.
pub proof fn lemma_how_a_child_is_found(s: Seq<u8>, at: int, name: Seq<u8>, next: int)
    ensures
        ({
            let is_node = at + 4 <= be32_at(s, 8) + be32_at(s, 36) && be32_at(s, at) == 1;
            &&& !is_node ==> find_child(s, at, name) == Search::Missing
            &&& is_node && !name_ok(s, at) ==> find_child(s, at, name) == Search::Stuck
            &&& is_node && name_ok(s, at) && base_name(s, at) == name ==> find_child(s, at, name)
                == Search::Found(node_body(s, at))
            &&& is_node && name_ok(s, at) && base_name(s, at) != name ==> {
                &&& node_end(s, at, 1) is None ==> find_child(s, at, name) == Search::Stuck
                &&& node_end(s, at, 1) == Some(next) && at < next <= struct_end(s) ==> find_child(
                    s,
                    at,
                    name,
                ) == find_child(s, next, name)
            }
        }),
{
}

/// A search below the root starts at the first node that is not a token without a
/// meaning: among its children if it has no name, past it if it has one, and nowhere
/// if there is none.
pub proof fn lemma_how_a_node_is_found(s: Seq<u8>, name: Seq<u8>, root: int, first: int)
    requires
        root == nops_end(s, struct_start(s)),
    ensures
        ({
            let is_node = root + 4 <= be32_at(s, 8) + be32_at(s, 36) && be32_at(s, root) == 1;
            let found = find_below_root(s, name);
            &&& !is_node ==> found == Search::Missing
            &&& is_node && !name_ok(s, root) ==> found == Search::Stuck
            &&& is_node && name_ok(s, root) && base_name(s, root).len() > 0 ==> {
                &&& node_end(s, root, 0) is Some ==> found == Search::Missing
                &&& node_end(s, root, 0) is None ==> found == Search::Stuck
            }
            &&& is_node && name_ok(s, root) && base_name(s, root).len() == 0 ==> {
                &&& props_end(s, nops_end(s, node_body(s, root))) is None ==> found == Search::Stuck
                &&& props_end(s, nops_end(s, node_body(s, root))) == Some(first) ==> found
                    == find_child(s, first, name)
            }
        }),
{
}

/// The children of a node can be listed one by one: each can be skipped, and its
/// properties can be read. Tokens without a meaning between them are passed, and any
/// other token ends them.
pub proof fn lemma_which_children_can_be_listed(s: Seq<u8>, at: int, next: int)
    requires
        struct_start(s) <= at,
    ensures
        ({
            let there = at + 4 <= be32_at(s, 8) + be32_at(s, 36);
            &&& there && be32_at(s, at) == 4 ==> children_ok(s, at) == children_ok(s, at + 4)
            &&& there && be32_at(s, at) == 1 && node_end(s, at, 2) is None ==> !children_ok(s, at)
            &&& there && be32_at(s, at) == 1 && node_end(s, at, 2) == Some(next) && at < next
                <= struct_end(s) ==> (children_ok(s, at) <==> all_props(
                s,
                node_body(s, at),
                Asked::Readable,
            ) && children_ok(s, next))
            &&& !there || be32_at(s, at) != 1 && be32_at(s, at) != 4 ==> children_ok(s, at)
        }),
{
}

/// The content of a node can be listed if its properties can be passed and a token
/// with children that can be listed follows.
pub proof fn lemma_which_contents_can_be_listed(s: Seq<u8>, body: int, children: int)
    ensures
        props_end(s, nops_end(s, body)) is None ==> !body_ok(s, body),
        props_end(s, nops_end(s, body)) == Some(children) ==> (body_ok(s, body) <==> children + 4
            <= be32_at(s, 8) + be32_at(s, 36) && children_ok(s, children)),
{
}

/// A blob is worth looking at if it has a header of forty bytes with the magic bytes,
/// is as long as it says, and holds the structure block.
pub proof fn lemma_which_blobs_are_whole(s: Seq<u8>)
    ensures
        block_ok(s) <==> {
            &&& s.len() >= 40
            &&& s[0] == 0xd0 && s[1] == 0x0d && s[2] == 0xfe && s[3] == 0xed
            &&& s.len() >= be32_at(s, 4)
            &&& s.len() >= be32_at(s, 8) + be32_at(s, 36)
        },
        header_ok(s) <==> {
            &&& s.len() >= 40
            &&& s[0] == 0xd0 && s[1] == 0x0d && s[2] == 0xfe && s[3] == 0xed
            &&& s.len() >= be32_at(s, 4)
        },
{
}

/// An ASCII path is short exactly if it is a slash and a name, in which there is
/// neither a slash nor an `@`.
pub proof fn lemma_which_paths_are_short(path: Seq<char>)
    requires
        is_ascii_chars(path),
    ensures
        is_short_path(path) <==> {
            &&& path.len() > 1
            &&& path[0] == '/'
            &&& forall|i: int|
                1 <= i < path.len() ==> #[trigger] path[i] != '/' && path[i] != '@'
        },
{
    is_ascii_chars_encode_utf8(path);
    let bytes = encode_utf8(path);
    assert forall|i: int| 0 <= i < path.len() implies (#[trigger] path[i] == '/' <==> bytes[i]
        == 0x2f) && (path[i] == '@' <==> bytes[i] == 0x40) by {
        assert(path[i] as u8 == bytes[i]);
        assert('\0' <= path[i] <= '\u{7f}');
    }
    if is_short_path(path) {
        assert forall|i: int| 1 <= i < path.len() implies #[trigger] path[i] != '/' && path[i]
            != '@' by {
            assert(bytes[i] != 0x2f && bytes[i] != 0x40);
        }
    }
    if path.len() > 1 && path[0] == '/' && (forall|i: int|
        1 <= i < path.len() ==> #[trigger] path[i] != '/' && path[i] != '@') {
        assert forall|i: int| 1 <= i < bytes.len() implies bytes[i] != 0x2f && bytes[i] != 0x40 by {
            assert(path[i] != '/');
        }
    }
}

/// A path is short exactly if its first byte is the only slash, something follows,
/// and no byte is an `@`.
pub proof fn lemma_bytes_of_short_paths(path: Seq<char>)
    ensures
        is_short_path(path) <==> {
            &&& encode_utf8(path).len() >= 2
            &&& encode_utf8(path)[0] == 0x2f
            &&& forall|i: int|
                0 < i < encode_utf8(path).len() ==> #[trigger] encode_utf8(path)[i] != 0x2f
                    && encode_utf8(path)[i] != 0x40
        },
{
}

/// The children of the node at a short path can be listed exactly if the blob is
/// whole, the search for the node comes to an end, and its content can be listed; or,
/// where there is no such node, the search for the aliases comes to an end and none
/// of them is the path.
pub proof fn lemma_which_paths_can_be_walked(s: Seq<u8>, path: Seq<char>, body: int)
    requires
        is_short_path(path),
        block_ok(s),
    ensures
        ({
            let found = find_below_root(s, encode_utf8(path).skip(1));
            let aliases = find_below_root(s, encode_utf8("aliases"@));
            &&& found == Search::Found(body) ==> (walkable(s, path) <==> body_ok(s, body))
            &&& found == Search::Stuck ==> !walkable(s, path)
            &&& found == Search::Missing && aliases == Search::Missing ==> walkable(s, path)
            &&& found == Search::Missing && aliases == Search::Stuck ==> !walkable(s, path)
            &&& found == Search::Missing && aliases == Search::Found(body) ==> (walkable(s, path)
                <==> all_props(s, body, Asked::Unnamed(encode_utf8(path))))
        }),
{
}

/// Nothing can be walked or read in a blob that is not whole, and only short paths
/// can be walked.
pub proof fn lemma_broken_blobs_are_refused(s: Seq<u8>, path: Seq<char>)
    ensures
        !block_ok(s) ==> !walkable(s, path) && !readable(s),
        !is_short_path(path) ==> !walkable(s, path),
        block_ok(s) ==> (readable(s) <==> list_from(s, be32_at(s, 8), 0)),
{
}

/// How the nodes of a blob are listed: an end closes a node that is open; a node is
/// opened if its name can be read, fewer than 63 are open, and its properties can be
/// read, with cell counts of a word at least where a node follows; and anything else
/// ends the list.
pub proof fn lemma_how_nodes_are_listed(s: Seq<u8>, at: int, depth: int, body: int)
    requires
        struct_start(s) <= at,
        0 <= depth <= 63,
    ensures
        ({
            let end = be32_at(s, 8) + be32_at(s, 36);
            let closes = at + 4 <= end && be32_at(s, at) == 2;
            let next = nops_end(s, at);
            let opens = !closes && next + 4 <= end && be32_at(s, next) == 1;
            let props = props_end(s, nops_end(s, node_body(s, next)));
            let inner = nops_end(s, body);
            let followed = inner + 4 <= end && be32_at(s, inner) == 1;
            &&& closes && depth == 0 ==> !list_from(s, at, depth)
            &&& closes && depth > 0 ==> list_from(s, at, depth) == list_from(s, at + 4, depth - 1)
            &&& !closes && !opens ==> list_from(s, at, depth)
            &&& opens && (!name_ok(s, next) || depth == 63 || props is None) ==> !list_from(
                s,
                at,
                depth,
            )
            &&& opens && at <= next && name_ok(s, next) && depth < 63 && props == Some(body) && next
                < body <= end ==> (list_from(s, at, depth) <==> {
                &&& all_props(s, node_body(s, next), Asked::Readable)
                &&& followed ==> all_props(s, node_body(s, next), Asked::Cells)
                &&& list_from(s, body, depth + 1)
            })
        }),
{
}

} // verus!
