//! Which disk did the image come from?
//!
//! The firmware names the *partition* the image came from (the ESP), not
//! the disk. To attribute it to a whole device, device paths are compared:
//! a disk carries the boot volume if its path is a prefix of the boot
//! volume's path.
//!
//! For the tool that is copied onto the Deck's own ESP and run from there it
//! is only a label: the disk it booted from is usually the disk that needs
//! repairing. The rescue tool leaves that disk alone, see
//! [`crate::disks::is_candidate`].

use crate::bytes::same_bytes;
use vstd::prelude::*;

verus! {

/// One node of a device path.
pub struct Node {
    pub kind: u8,
    pub sub: u8,
    pub data: Vec<u8>,
}

/// A [`Node`] as a value.
pub struct NodeView {
    pub kind: u8,
    pub sub: u8,
    pub data: Seq<u8>,
}

impl View for Node {
    type V = NodeView;

    open spec fn view(&self) -> NodeView {
        NodeView { kind: self.kind, sub: self.sub, data: self.data@ }
    }
}

/// Nodes as values.
pub open spec fn nodes_of(v: Seq<Node>) -> Seq<NodeView> {
    Seq::new(v.len(), |i: int| v[i]@)
}

/// The nodes that say something, among the first `n`: end-of-path markers
/// would otherwise fail to match the boot path's continuing nodes and defeat
/// the prefix test.
pub open spec fn real_nodes(path: Seq<Node>, n: nat) -> Seq<NodeView>
    decreases n,
{
    if n == 0 {
        Seq::empty()
    } else {
        let before = real_nodes(path, (n - 1) as nat);
        if path[n - 1].kind == 0x7F && path[n - 1].sub == 0xFF {
            before
        } else {
            before.push(path[n - 1]@)
        }
    }
}

/// Every node of `prefix` is the corresponding node of `full`, and there is
/// one: an empty path is a prefix of everything, and that is not a match to
/// act on.
pub open spec fn leads_to(prefix: Seq<NodeView>, full: Seq<NodeView>) -> bool {
    0 < prefix.len() <= full.len() && full.take(prefix.len() as int) == prefix
}

fn same_node(a: &Node, b: &Node) -> (r: bool)
    ensures
        r == (a@ == b@),
{
    a.kind == b.kind && a.sub == b.sub && same_bytes(a.data.as_slice(), b.data.as_slice())
}

fn next_real(path: &[Node], from: usize) -> (r: usize)
    requires
        from <= path@.len(),
    ensures
        from <= r <= path@.len(),
        real_nodes(path@, r as nat) == real_nodes(path@, from as nat),
        r < path@.len() ==> !(path@[r as int].kind == 0x7F && path@[r as int].sub == 0xFF),
{
    let mut i: usize = from;
    while i < path.len() && path[i].kind == 0x7F && path[i].sub == 0xFF
        invariant
            from <= i <= path@.len(),
            real_nodes(path@, i as nat) == real_nodes(path@, from as nat),
        decreases path@.len() - i,
    {
        i += 1;
    }
    i
}

proof fn real_nodes_grow(path: Seq<Node>, a: nat, b: nat)
    requires
        a <= b,
    ensures
        real_nodes(path, a).len() <= real_nodes(path, b).len(),
        real_nodes(path, b).take(real_nodes(path, a).len() as int) == real_nodes(path, a),
    decreases b,
{
    if a < b {
        real_nodes_grow(path, a, (b - 1) as nat);
        let short = real_nodes(path, a);
        let before = real_nodes(path, (b - 1) as nat);
        assert(real_nodes(path, b).take(short.len() as int) =~= before.take(short.len() as int));
    } else {
        assert(real_nodes(path, a).take(real_nodes(path, a).len() as int) =~= real_nodes(path, a));
    }
}

/// Whether one path leads to another: every node of `prefix` matches the
/// corresponding node of `full`.
pub fn is_prefix_of(prefix: &[Node], full: &[Node]) -> (r: bool)
    ensures
        r == leads_to(
            real_nodes(prefix@, prefix@.len()),
            real_nodes(full@, full@.len()),
        ),
{
    let ghost want = real_nodes(prefix@, prefix@.len());
    let ghost have = real_nodes(full@, full@.len());
    let mut i: usize = next_real(prefix, 0);
    let mut j: usize = next_real(full, 0);
    let mut matched = false;
    while i < prefix.len()
        invariant
            i <= prefix@.len(),
            j <= full@.len(),
            want == real_nodes(prefix@, prefix@.len()),
            have == real_nodes(full@, full@.len()),
            real_nodes(prefix@, i as nat) == real_nodes(full@, j as nat),
            matched == (real_nodes(prefix@, i as nat).len() > 0),
            i < prefix@.len() ==> !(prefix@[i as int].kind == 0x7F && prefix@[i as int].sub
                == 0xFF),
            j < full@.len() ==> !(full@[j as int].kind == 0x7F && full@[j as int].sub == 0xFF),
        decreases prefix@.len() - i,
    {
        let ghost so_far = real_nodes(prefix@, i as nat);
        proof {
            real_nodes_grow(prefix@, (i + 1) as nat, prefix@.len());
            real_nodes_grow(full@, j as nat, full@.len());
            assert(want[so_far.len() as int] == prefix@[i as int]@) by {
                assert(want.take(so_far.len() as int + 1)[so_far.len() as int]
                    == prefix@[i as int]@);
            }
        }
        if j >= full.len() {
            assert(have.len() == so_far.len());
            return false;
        }
        proof {
            real_nodes_grow(full@, (j + 1) as nat, full@.len());
            assert(have[so_far.len() as int] == full@[j as int]@) by {
                assert(have.take(so_far.len() as int + 1)[so_far.len() as int] == full@[j as int]@);
            }
        }
        if !same_node(&prefix[i], &full[j]) {
            assert(have.take(want.len() as int)[so_far.len() as int] != want[so_far.len() as int]
                || want.len() > have.len());
            return false;
        }
        matched = true;
        i = next_real(prefix, i + 1);
        j = next_real(full, j + 1);
    }
    proof {
        real_nodes_grow(full@, j as nat, full@.len());
    }
    matched
}

/// The volume the image was loaded from, as far as it is known.
pub struct BootDevice {
    pub path: Option<Vec<Node>>,
}

impl BootDevice {
    pub fn is_known(&self) -> (r: bool)
        ensures
            r == (self.path is Some),
    {
        self.path.is_some()
    }

    pub fn path(&self) -> (r: Option<&[Node]>)
        ensures
            match r {
                Some(nodes) => self.path matches Some(p) && p@ == nodes@,
                None => self.path is None,
            },
    {
        match &self.path {
            Some(p) => Some(p.as_slice()),
            None => None,
        }
    }

    /// `disk` is the device the image came from, or carries it.
    pub open spec fn carried_by(self, disk: Seq<Node>) -> bool {
        match self.path {
            Some(boot) => leads_to(
                real_nodes(disk, disk.len()),
                real_nodes(boot@, boot@.len()),
            ),
            None => false,
        }
    }

    /// True if `disk` is the device the image came from, or carries it.
    ///
    /// An unknown boot device answers `false` for every disk: nothing gets
    /// the label, and the menu says so rather than claiming a disk is not
    /// the boot disk when we simply cannot tell.
    pub fn covers(&self, disk: &[Node]) -> (r: bool)
        ensures
            r == self.carried_by(disk@),
    {
        match &self.path {
            Some(boot) => is_prefix_of(disk, boot.as_slice()),
            None => false,
        }
    }
}

/// A device is carried by whatever carries a device it is reached through:
/// leading to is transitive.
pub proof fn leading_is_transitive(a: Seq<NodeView>, b: Seq<NodeView>, c: Seq<NodeView>)
    requires
        leads_to(a, b),
        leads_to(b, c),
    ensures
        leads_to(a, c),
{
    assert(c.take(a.len() as int) =~= c.take(b.len() as int).take(a.len() as int));
}


/// A device carries what is reached through it: a path leads to itself and to
/// every path that goes on from it, and to no other.
pub proof fn a_device_carries_what_is_reached_through_it(
    device: Seq<NodeView>,
    rest: Seq<NodeView>,
    full: Seq<NodeView>,
)
    ensures
        device.len() > 0 ==> leads_to(device, device + rest),
        leads_to(device, full) <==> device.len() > 0 && exists|more: Seq<NodeView>|
            full == #[trigger] (device + more),
{
    assert((device + rest).take(device.len() as int) =~= device);
    if leads_to(device, full) {
        assert(full =~= device + full.skip(device.len() as int));
    }
    if device.len() > 0 && exists|more: Seq<NodeView>| full == #[trigger] (device + more) {
        let more = choose|more: Seq<NodeView>| full == #[trigger] (device + more);
        assert((device + more).take(device.len() as int) =~= device);
    }
}

/// Only the markers that end a path are passed over: what is compared is
/// every other node, in order.
pub proof fn only_end_markers_are_passed_over(
    path: Seq<Node>,
    n: nat,
    speaks: spec_fn(NodeView) -> bool,
)
    requires
        n <= path.len(),
        forall|node: NodeView| #[trigger] speaks(node) == !(node.kind == 0x7F && node.sub == 0xFF),
    ensures
        real_nodes(path, n) == nodes_of(path).take(n as int).filter(speaks),
    decreases n,
{
    reveal(Seq::filter);
    let all = nodes_of(path);
    if n > 0 {
        only_end_markers_are_passed_over(path, (n - 1) as nat, speaks);
        assert(all.take(n as int).drop_last() =~= all.take(n - 1));
        assert(all.take(n as int).last() == path[n - 1]@);
    } else {
        assert(all.take(0) =~= Seq::<NodeView>::empty());
    }
}

/// The disk the program came from is recognised by its path, whatever follows
/// it in the path of the image, and where that path is not known no disk is.
pub proof fn the_boot_disk_is_recognised(boot: BootDevice, disk: Seq<Node>, image: Vec<Node>)
    ensures
        boot.path is None ==> !boot.carried_by(disk),
        boot.path == Some(image) ==> (boot.carried_by(disk) <==> real_nodes(disk, disk.len()).len()
            > 0 && exists|more: Seq<NodeView>|
            real_nodes(image@, image@.len()) == #[trigger] (real_nodes(disk, disk.len()) + more)),
{
    a_device_carries_what_is_reached_through_it(
        real_nodes(disk, disk.len()),
        Seq::empty(),
        real_nodes(image@, image@.len()),
    );
}

} // verus!
