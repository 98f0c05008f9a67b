use crate::order::str_eq;
use vstd::prelude::*;

verus! {

/// What one scan finds at a filesystem node: a plain file with its reported
/// size, a directory with named children, or a symbolic link. Nodes the
/// walker could not stat are marked unreadable.
pub enum FsNode {
    File { size: u64, readable: bool },
    Dir { entries: Vec<(String, FsNode)>, readable: bool },
    Symlink,
}

/// The bytes a subtree contributes to its parent's total: unreadable nodes
/// and symbolic links contribute nothing, a conscious
/// availability-over-precision tradeoff.
pub open spec fn node_size(n: FsNode) -> nat
    decreases n,
{
    match n {
        FsNode::File { size, readable } => if readable {
            size as nat
        } else {
            0
        },
        FsNode::Dir { entries, readable } => if readable {
            entries_size(entries@)
        } else {
            0
        },
        FsNode::Symlink => 0,
    }
}

/// The summed contributions of a directory's children.
pub open spec fn entries_size(es: Seq<(String, FsNode)>) -> nat
    decreases es,
{
    if es.len() == 0 {
        0
    } else {
        entries_size(es.drop_last()) + node_size(es.last().1)
    }
}

/// A total clipped to what a 64-bit counter can carry.
pub open spec fn clamp64(x: nat) -> nat {
    if x > u64::MAX as nat {
        u64::MAX as nat
    } else {
        x
    }
}

/// Measures one subtree: the recursive sum of readable file sizes,
/// saturating at the counter's maximum.
#[verifier::loop_isolation(false)]
pub fn total_size(n: &FsNode) -> (r: u64)
    ensures
        r as nat == clamp64(node_size(*n)),
    decreases *n,
{
    match n {
        FsNode::File { size, readable } => {
            if *readable {
                *size
            } else {
                0
            }
        },
        FsNode::Symlink => 0,
        FsNode::Dir { entries, readable } => {
            if !*readable {
                return 0;
            }
            let mut acc: u64 = 0;
            let mut i: usize = 0;
            proof {
                assert(entries@.take(0) =~= Seq::<(String, FsNode)>::empty());
            }
            while i < entries.len()
                invariant
                    i <= entries@.len(),
                    acc as nat == clamp64(entries_size(entries@.take(i as int))),
                decreases entries@.len() - i,
            {
                let c = total_size(&entries[i].1);
                if acc > u64::MAX - c {
                    acc = u64::MAX;
                } else {
                    acc = acc + c;
                }
                proof {
                    assert(entries@.take(i as int + 1).drop_last() =~= entries@.take(i as int));
                    assert(entries@.take(i as int + 1).last() == entries@[i as int]);
                }
                i += 1;
            }
            proof {
                assert(entries@.take(entries@.len() as int) =~= entries@);
            }
            acc
        },
    }
}

/// One unit of work flowing from the scanner to its caller: a measured
/// child, the terminal completion marker, or the terminal error for a root
/// that could not be opened at all.
pub enum ScanEvent {
    Measured { name: String, size: u64 },
    Completed,
    Failed,
}

/// Whether an event reports this child with this measurement.
pub open spec fn measured_event(name: Seq<char>, size: u64, e: ScanEvent) -> bool {
    match e {
        ScanEvent::Measured { name: n, size: s } => n@ == name && s == size,
        _ => false,
    }
}

/// Scans the immediate children of a root: one `Measured` event per child,
/// then exactly one `Completed` marker; a root that is not a readable
/// directory yields exactly one terminal `Failed` event.
pub fn scan_root(root: &FsNode) -> (events: Vec<ScanEvent>)
    ensures
        match *root {
            FsNode::Dir { entries, readable } => readable ==> {
                &&& events@.len() == entries@.len() + 1
                &&& forall|i: int|
                    0 <= i < entries@.len() ==> measured_event(
                        entries@[i].0@,
                        (clamp64(node_size(entries@[i].1)) as u64),
                        #[trigger] events@[i],
                    )
                &&& events@.last() == ScanEvent::Completed
            },
            _ => true,
        },
        !(*root matches FsNode::Dir { entries, readable } && readable) ==> events@ == seq![
            ScanEvent::Failed,
        ],
{
    match root {
        FsNode::Dir { entries, readable } if *readable => {
            let mut events: Vec<ScanEvent> = Vec::new();
            let mut i: usize = 0;
            while i < entries.len()
                invariant
                    i <= entries@.len(),
                    events@.len() == i,
                    forall|j: int|
                        0 <= j < i ==> measured_event(
                            entries@[j].0@,
                            (clamp64(node_size(entries@[j].1)) as u64),
                            #[trigger] events@[j],
                        ),
                decreases entries@.len() - i,
            {
                let size = total_size(&entries[i].1);
                let name = entries[i].0.clone();
                events.push(ScanEvent::Measured { name, size });
                i += 1;
            }
            events.push(ScanEvent::Completed);
            events
        },
        _ => {
            let mut events: Vec<ScanEvent> = Vec::new();
            events.push(ScanEvent::Failed);
            proof {
                assert(events@ =~= seq![ScanEvent::Failed]);
            }
            events
        },
    }
}

/// The reserved name that marks a completed scan on the channel.
pub fn scan_complete_sentinel() -> (r: String)
    ensures
        r@ == "__SCAN_COMPLETE__"@,
{
    String::from_str("__SCAN_COMPLETE__")
}

/// The reserved name that marks a scan whose root could not be opened.
pub fn scan_failed_sentinel() -> (r: String)
    ensures
        r@ == "__SCAN_ERROR__"@,
{
    String::from_str("__SCAN_ERROR__")
}

/// Turns an event into the plain `(name, size)` pair the channel carries.
pub fn encode_event(e: &ScanEvent) -> (r: (String, u64))
    ensures
        match *e {
            ScanEvent::Measured { name, size } => r.0@ == name@ && r.1 == size,
            ScanEvent::Completed => r.0@ == "__SCAN_COMPLETE__"@ && r.1 == 0,
            ScanEvent::Failed => r.0@ == "__SCAN_ERROR__"@ && r.1 == 0,
        },
{
    match e {
        ScanEvent::Measured { name, size } => (name.clone(), *size),
        ScanEvent::Completed => (scan_complete_sentinel(), 0),
        ScanEvent::Failed => (scan_failed_sentinel(), 0),
    }
}

/// Reads a channel pair back into an event: the two reserved names mark the
/// terminal events, every other name is a measurement.
pub fn decode_event(name: String, size: u64) -> (e: ScanEvent)
    ensures
        name@ == "__SCAN_COMPLETE__"@ ==> e == ScanEvent::Completed,
        name@ == "__SCAN_ERROR__"@ ==> e == ScanEvent::Failed,
        (name@ != "__SCAN_COMPLETE__"@ && name@ != "__SCAN_ERROR__"@) ==> measured_event(
            name@,
            size,
            e,
        ),
{
    proof {
        reveal_strlit("__SCAN_COMPLETE__");
        reveal_strlit("__SCAN_ERROR__");
        assert("__SCAN_COMPLETE__"@.len() == 17);
        assert("__SCAN_ERROR__"@.len() == 14);
        assert("__SCAN_COMPLETE__"@ != "__SCAN_ERROR__"@);
    }
    if str_eq(name.as_str(), "__SCAN_COMPLETE__") {
        ScanEvent::Completed
    } else if str_eq(name.as_str(), "__SCAN_ERROR__") {
        ScanEvent::Failed
    } else {
        ScanEvent::Measured { name, size }
    }
}

} // verus!
