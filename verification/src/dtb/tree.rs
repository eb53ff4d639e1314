//! What the kernel reads from a device tree.
//!
//! The tree itself is read by the `fdt` crate. The functions marked
//! `external_body` are the only places that call it: they hand it the blob and
//! turn what it finds into plain values.

use crate::dtb::walk;
use crate::text::same_text;
use vstd::prelude::*;
use vstd::utf8::*;

verus! {

/// Why a blob is no device tree.
#[derive(Clone, Copy, Debug, PartialEq, Eq, Structural)]
pub enum FdtError {
    /// The first word is not the magic value.
    BadMagic,
    /// There is no blob.
    BadPtr,
    /// The blob is shorter than its header, or than the header says.
    BufferTooSmall,
}

/// The name and the value of a property.
pub type PropView = (Seq<char>, Seq<u8>);

/// The name and the properties of a node.
pub type NodeView = (Seq<char>, Seq<PropView>);

/// Address and size of a region, as a `reg` property lists them.
pub type RegionView = (usize, Option<usize>);

/// The properties of a device and the regions of its `reg` property.
pub type DeviceView = (Seq<PropView>, Option<Seq<RegionView>>);

/// A property.
#[derive(Clone, Debug)]
pub struct DtProp {
    /// Its name.
    pub name: String,
    /// Its value.
    pub value: Vec<u8>,
}

/// A node with its properties.
#[derive(Clone, Debug)]
pub struct DtNode {
    /// Its name, with the unit address if it has one.
    pub name: String,
    /// Its properties, in the order of the blob.
    pub props: Vec<DtProp>,
}

/// A region of a `reg` property.
#[derive(Clone, Copy, Debug, PartialEq, Eq, Structural)]
pub struct DtRegion {
    /// First address.
    pub address: usize,
    /// Length in bytes, if the property gives one.
    pub size: Option<usize>,
}

/// A device found by its `compatible` property.
#[derive(Clone, Debug)]
pub struct DtDevice {
    /// Its properties, in the order of the blob.
    pub props: Vec<DtProp>,
    /// The regions of its `reg` property, if that can be read.
    pub reg: Option<Vec<DtRegion>>,
}

impl View for DtProp {
    type V = PropView;

    open spec fn view(&self) -> PropView {
        (self.name@, self.value@)
    }
}

impl View for DtNode {
    type V = NodeView;

    open spec fn view(&self) -> NodeView {
        (self.name@, props_view(self.props@))
    }
}

impl View for DtRegion {
    type V = RegionView;

    open spec fn view(&self) -> RegionView {
        (self.address, self.size)
    }
}

impl View for DtDevice {
    type V = DeviceView;

    open spec fn view(&self) -> DeviceView {
        (
            props_view(self.props@),
            match self.reg {
                Some(regions) => Some(regions_view(regions@)),
                None => None,
            },
        )
    }
}

/// The views of a list of properties.
pub open spec fn props_view(props: Seq<DtProp>) -> Seq<PropView> {
    Seq::new(props.len(), |i: int| props[i]@)
}

/// The views of a list of nodes.
pub open spec fn nodes_view(nodes: Seq<DtNode>) -> Seq<NodeView> {
    Seq::new(nodes.len(), |i: int| nodes[i]@)
}

/// The views of a list of regions.
pub open spec fn regions_view(regions: Seq<DtRegion>) -> Seq<RegionView> {
    Seq::new(regions.len(), |i: int| regions[i]@)
}

/// The view of a list of nodes that may be missing.
pub open spec fn opt_nodes_view(nodes: Option<Vec<DtNode>>) -> Option<Seq<NodeView>> {
    match nodes {
        Some(list) => Some(nodes_view(list@)),
        None => None,
    }
}

/// The view of a device that may be missing.
pub open spec fn opt_device_view(device: Option<DtDevice>) -> Option<DeviceView> {
    match device {
        Some(found) => Some(found@),
        None => None,
    }
}

/// The views of a list of strings.
pub open spec fn texts_view(texts: Seq<&str>) -> Seq<Seq<char>> {
    Seq::new(texts.len(), |i: int| texts[i]@)
}

/// What the header of a blob comes to.
pub open spec fn header_verdict(dtb: Seq<u8>) -> Result<(), FdtError> {
    if dtb.len() < walk::HEADER_LEN {
        Err(FdtError::BufferTooSmall)
    } else if walk::be32_at(dtb, 0) != walk::FDT_MAGIC {
        Err(FdtError::BadMagic)
    } else if dtb.len() < walk::be32_at(dtb, 4) {
        Err(FdtError::BufferTooSmall)
    } else {
        Ok(())
    }
}

/// The children of the node at `path` of the tree in `dtb`, as
/// `fdt::Fdt::find_node` finds it and `fdt::node::FdtNode::children` lists
/// them; nothing if there is no such node.
pub uninterp spec fn fdt_children(dtb: Seq<u8>, path: Seq<char>) -> Option<Seq<NodeView>>;

/// The first device of the tree in `dtb` that is compatible with one of the
/// strings, as `fdt::Fdt::find_compatible` finds it.
pub uninterp spec fn fdt_compatible(dtb: Seq<u8>, with: Seq<Seq<char>>) -> Option<DeviceView>;

/// Calls `fdt::Fdt::new`, which accepts a blob exactly if it holds a whole
/// header with the magic value and is as large as the header says.
#[verifier::external_body]
pub(crate) fn open_tree(dtb: &[u8]) -> (verdict: Result<(), FdtError>)
    ensures
        verdict == header_verdict(dtb@),
{
    match fdt::Fdt::new(dtb) {
        Ok(_) => Ok(()),
        Err(fdt::FdtError::BadMagic) => Err(FdtError::BadMagic),
        Err(fdt::FdtError::BadPtr) => Err(FdtError::BadPtr),
        Err(fdt::FdtError::BufferTooSmall) => Err(FdtError::BufferTooSmall),
    }
}

/// Calls `fdt::Fdt::find_node` and lists the children of what it finds with
/// `fdt::node::FdtNode::children`. What they find is named [`fdt_children`];
/// claimed beyond that is that each child takes three words of the structure
/// block at least. The blob has to be walkable to the path: on others the reader
/// may panic.
#[verifier::external_body]
pub(crate) fn children_at(dtb: &[u8], path: &str) -> (nodes: Option<Vec<DtNode>>)
    requires
        walk::walkable(dtb@, path@),
    ensures
        opt_nodes_view(nodes) == fdt_children(dtb@, path@),
        nodes matches Some(list) ==> list@.len() * 12 <= walk::be32_at(dtb@, 36),
{
    let tree = fdt::Fdt::new(dtb).ok()?;
    let children = tree.find_node(path)?.children();
    let to_prop = |p: fdt::node::NodeProperty| DtProp {
        name: p.name.to_string(),
        value: p.value.to_vec(),
    };
    Some(children.map(|c| DtNode {
        name: c.name.to_string(),
        props: c.properties().map(to_prop).collect(),
    }).collect())
}

/// Calls `fdt::Fdt::find_compatible` and reads the properties and the `reg`
/// regions of what it finds. What that is, is named [`fdt_compatible`]. The
/// blob has to be readable: on others the reader may panic.
#[verifier::external_body]
pub(crate) fn compatible_device(dtb: &[u8], with: &[&str]) -> (device: Option<DtDevice>)
    requires
        walk::readable(dtb@),
    ensures
        opt_device_view(device) == fdt_compatible(dtb@, texts_view(with@)),
{
    let tree = fdt::Fdt::new(dtb).ok()?;
    let node = tree.find_compatible(with)?;
    let to_region = |r: fdt::standard_nodes::MemoryRegion| DtRegion {
        address: r.starting_address as usize,
        size: r.size,
    };
    let props = node.properties().map(|p| DtProp {
        name: p.name.to_string(),
        value: p.value.to_vec(),
    }).collect();
    Some(DtDevice { props, reg: node.reg().map(|list| list.map(to_region).collect()) })
}

/// The big-endian double word that `value` holds.
pub open spec fn be64(value: Seq<u8>) -> int {
    walk::be32_at(value, 0) * 0x1_0000_0000 + walk::be32_at(value, 4)
}

/// The number that a property value of one or two words holds.
pub open spec fn number_of(value: Seq<u8>) -> Option<usize> {
    if value.len() == 4 {
        Some(walk::be32_at(value, 0) as usize)
    } else if value.len() == 8 {
        Some(be64(value) as usize)
    } else {
        None
    }
}

/// `text` without the zero characters at its end.
pub open spec fn trim_nul(text: Seq<char>) -> Seq<char>
    decreases text.len(),
{
    if text.len() > 0 && text.last() == '\0' {
        trim_nul(text.drop_last())
    } else {
        text
    }
}

/// The string that a property value holds, if it is UTF-8.
pub open spec fn text_of(value: Seq<u8>) -> Option<Seq<char>> {
    if valid_utf8(value) {
        Some(trim_nul(decode_utf8(value)))
    } else {
        None
    }
}

/// Calls `fdt::node::NodeProperty::as_usize`: a value of one or two words is
/// read as a big-endian number, any other is none.
#[verifier::external_body]
pub(crate) fn prop_number(value: &[u8]) -> (number: Option<usize>)
    ensures
        number == number_of(value@),
{
    fdt::node::NodeProperty { name: "", value }.as_usize()
}

/// Calls `fdt::node::NodeProperty::as_str`: a value that is UTF-8 is read as a
/// string, without the zero characters at its end.
#[verifier::external_body]
pub(crate) fn prop_text(value: &[u8]) -> (text: Option<String>)
    ensures
        text is Some <==> text_of(value@) is Some,
        text matches Some(t) ==> text_of(value@) == Some(t@),
{
    fdt::node::NodeProperty { name: "", value }.as_str().map(|text| text.to_string())
}

/// The value of the first property with the given name.
pub open spec fn find_value(props: Seq<PropView>, name: Seq<char>) -> Option<Seq<u8>>
    decreases props.len(),
{
    if props.len() == 0 {
        None
    } else if props[0].0 == name {
        Some(props[0].1)
    } else {
        find_value(props.drop_first(), name)
    }
}

/// Finds the first property with the given name and returns its value.
pub fn property<'a>(props: &'a Vec<DtProp>, name: &str) -> (value: Option<&'a Vec<u8>>)
    ensures
        value is Some <==> find_value(props_view(props@), name@) is Some,
        value matches Some(v) ==> find_value(props_view(props@), name@) == Some(v@),
{
    let ghost views = props_view(props@);
    let mut i: usize = 0;
    assert(views.skip(0) =~= views);
    while i < props.len()
        invariant
            i <= props@.len(),
            views == props_view(props@),
            find_value(views.skip(i as int), name@) == find_value(views, name@),
        decreases props@.len() - i,
    {
        assert(views.skip(i as int)[0] == props@[i as int]@);
        assert(views.skip(i as int).drop_first() =~= views.skip(i + 1));
        if same_text(props[i].name.as_str(), name) {
            return Some(&props[i].value);
        }
        i = i + 1;
    }
    None
}

/// A property is found by its name: the first of that name gives the value.
pub proof fn lemma_first_property_is_found(props: Seq<PropView>, name: Seq<char>, at: int)
    requires
        0 <= at < props.len(),
        props[at].0 == name,
        forall|i: int| 0 <= i < at ==> (#[trigger] props[i]).0 != name,
    ensures
        find_value(props, name) == Some(props[at].1),
    decreases at,
{
    if at > 0 {
        assert(props[0].0 != name);
        let rest = props.drop_first();
        assert forall|i: int| 0 <= i < at - 1 implies (#[trigger] rest[i]).0 != name by {
            assert(rest[i] == props[i + 1]);
        }
        lemma_first_property_is_found(rest, name, at - 1);
    }
}

/// Nothing is found exactly if no property has the name.
pub proof fn lemma_missing_property_is_not_found(props: Seq<PropView>, name: Seq<char>)
    ensures
        find_value(props, name) is None <==> forall|i: int|
            0 <= i < props.len() ==> (#[trigger] props[i]).0 != name,
    decreases props.len(),
{
    if props.len() > 0 && props[0].0 != name {
        let rest = props.drop_first();
        lemma_missing_property_is_not_found(rest, name);
        assert forall|i: int| 0 <= i < rest.len() implies #[trigger] rest[i] == props[i + 1] by {}
        if forall|i: int| 0 <= i < rest.len() ==> (#[trigger] rest[i]).0 != name {
            assert forall|i: int| 0 <= i < props.len() implies (#[trigger] props[i]).0 != name by {
                if i > 0 {
                    assert(rest[i - 1] == props[i]);
                }
            }
        }
    }
}

/// The text of a property is what comes before the zeros at its end, however many
/// there are.
pub proof fn lemma_zeros_do_not_belong_to_text(text: Seq<char>, zeros: nat)
    requires
        text.len() > 0 ==> text.last() != '\0',
    ensures
        text_of(encode_utf8(text + Seq::new(zeros, |i: int| '\0'))) == Some(text),
{
    let whole = text + Seq::new(zeros, |i: int| '\0');
    encode_utf8_valid_utf8(whole);
    encode_utf8_decode_utf8(whole);
    lemma_trim_zeros(text, zeros);
}

/// Trimming takes all zeros off the end of a text.
proof fn lemma_trim_zeros(text: Seq<char>, zeros: nat)
    requires
        text.len() > 0 ==> text.last() != '\0',
    ensures
        trim_nul(text + Seq::new(zeros, |i: int| '\0')) == text,
    decreases zeros,
{
    let whole = text + Seq::new(zeros, |i: int| '\0');
    if zeros == 0 {
        assert(whole =~= text);
    } else {
        assert(whole.last() == '\0');
        assert(whole.drop_last() =~= text + Seq::new((zeros - 1) as nat, |i: int| '\0'));
        lemma_trim_zeros(text, (zeros - 1) as nat);
    }
}

/// A value is text exactly if it is UTF-8.
pub proof fn lemma_which_values_are_text(value: Seq<u8>)
    ensures
        text_of(value) is Some <==> valid_utf8(value),
{
}

/// A value of four or eight bytes is a number, highest byte first; one of any other
/// length is none.
pub proof fn lemma_which_values_are_numbers(value: Seq<u8>)
    ensures
        number_of(value) is Some <==> value.len() == 4 || value.len() == 8,
        value.len() == 4 ==> number_of(value) == Some(
            (((value[0] * 256 + value[1]) * 256 + value[2]) * 256 + value[3]) as usize,
        ),
        value.len() == 8 ==> number_of(value) == Some(
            (((((((value[0] * 256 + value[1]) * 256 + value[2]) * 256 + value[3]) * 256 + value[4])
                * 256 + value[5]) * 256 + value[6]) * 256 + value[7]) as usize,
        ),
{
}

/// A blob is taken for a device tree exactly if it has a header of forty bytes,
/// starts with the bytes `d0 0d fe ed`, and is as long as the next word says.
pub proof fn lemma_which_blobs_are_accepted(dtb: Seq<u8>)
    ensures
        ({
            let magic = dtb[0] == 0xd0 && dtb[1] == 0x0d && dtb[2] == 0xfe && dtb[3] == 0xed;
            let said = ((dtb[4] * 256 + dtb[5]) * 256 + dtb[6]) * 256 + dtb[7];
            &&& header_verdict(dtb) is Ok <==> dtb.len() >= 40 && magic && dtb.len() >= said
            &&& header_verdict(dtb) == Err::<(), FdtError>(FdtError::BadMagic) <==> dtb.len() >= 40
                && !magic
            &&& header_verdict(dtb) == Err::<(), FdtError>(FdtError::BufferTooSmall) <==> dtb.len()
                < 40 || magic && dtb.len() < said
        }),
{
}

/// The views keep every property, node and region, in order.
pub proof fn lemma_views_keep_all(
    props: Seq<DtProp>,
    nodes: Seq<DtNode>,
    regions: Seq<DtRegion>,
    texts: Seq<&str>,
    i: int,
)
    ensures
        props_view(props).len() == props.len(),
        nodes_view(nodes).len() == nodes.len(),
        regions_view(regions).len() == regions.len(),
        texts_view(texts).len() == texts.len(),
        0 <= i < props.len() ==> props_view(props)[i].0 == props[i].name@ && props_view(props)[i].1
            == props[i].value@,
        0 <= i < nodes.len() ==> nodes_view(nodes)[i].0 == nodes[i].name@ && nodes_view(nodes)[i].1
            == props_view(nodes[i].props@),
        0 <= i < regions.len() ==> regions_view(regions)[i].0 == regions[i].address
            && regions_view(regions)[i].1 == regions[i].size,
        0 <= i < texts.len() ==> texts_view(texts)[i] == texts[i]@,
{
}

/// What may be missing is missing in the view exactly if it is missing.
pub proof fn lemma_views_of_missing_things(nodes: Option<Vec<DtNode>>, device: Option<DtDevice>)
    ensures
        opt_nodes_view(nodes) is Some <==> nodes is Some,
        nodes matches Some(list) ==> opt_nodes_view(nodes) == Some(nodes_view(list@)),
        opt_device_view(device) is Some <==> device is Some,
        device matches Some(found) ==> ({
            let view = opt_device_view(device)->0;
            &&& view.0 == props_view(found.props@)
            &&& view.1 is Some <==> found.reg is Some
            &&& found.reg matches Some(regions) ==> view.1 == Some(regions_view(regions@))
        }),
{
}

} // verus!
