use vstd::prelude::*;
use crate::pci::PciDevice;

verus! {

/// Most USB controllers kept.
pub const MAX_CONTROLLERS: usize = 16;

/// The USB host controller interfaces.
#[derive(Debug, Clone, Copy, PartialEq, Eq, Structural)]
pub enum UsbControllerKind {
    Uhci,
    Ohci,
    Ehci,
    Xhci,
    Unknown,
}

/// A USB host controller found on the PCI bus.
#[derive(Debug, Clone, Copy)]
pub struct UsbController {
    pub kind: UsbControllerKind,
    pub bus: u8,
    pub dev: u8,
    pub func: u8,
    pub bars: [u32; 6],
    pub irq_line: u8,
}

/// The interface a USB controller's programming interface byte names.
pub open spec fn kind_of(prog_if: u8) -> UsbControllerKind {
    if prog_if == 0x00 {
        UsbControllerKind::Uhci
    } else if prog_if == 0x10 {
        UsbControllerKind::Ohci
    } else if prog_if == 0x20 {
        UsbControllerKind::Ehci
    } else if prog_if == 0x30 {
        UsbControllerKind::Xhci
    } else {
        UsbControllerKind::Unknown
    }
}

/// The interface of a USB controller (see `kind_of`).
pub fn kind_from_prog_if(prog_if: u8) -> (r: UsbControllerKind)
    ensures
        r == kind_of(prog_if),
{
    match prog_if {
        0x00 => UsbControllerKind::Uhci,
        0x10 => UsbControllerKind::Ohci,
        0x20 => UsbControllerKind::Ehci,
        0x30 => UsbControllerKind::Xhci,
        _ => UsbControllerKind::Unknown,
    }
}

/// A PCI function is a USB host controller: class 0x0C (serial bus),
/// subclass 0x03 (USB).
pub open spec fn is_usb(d: PciDevice) -> bool {
    d.class_code == 0x0C && d.subclass == 0x03
}

/// The USB controllers among `devs`, in order, at most `MAX_CONTROLLERS`.
pub open spec fn usb_of(devs: Seq<PciDevice>) -> Seq<PciDevice>
    decreases devs.len(),
{
    if devs.len() == 0 {
        Seq::empty()
    } else {
        let rest = usb_of(devs.drop_last());
        if is_usb(devs.last()) && rest.len() < MAX_CONTROLLERS {
            rest.push(devs.last())
        } else {
            rest
        }
    }
}

/// The controller record for PCI function `d`.
pub open spec fn controller_of(d: PciDevice) -> UsbController {
    UsbController { kind: kind_of(d.prog_if), bus: d.bus, dev: d.dev, func: d.func, bars: d.bars, irq_line: d.irq_line }
}

proof fn lemma_usb_of_small(devs: Seq<PciDevice>)
    ensures
        usb_of(devs).len() <= MAX_CONTROLLERS,
    decreases devs.len(),
{
    if devs.len() > 0 {
        lemma_usb_of_small(devs.drop_last());
    }
}

/// The controllers kept are the first `MAX_CONTROLLERS` USB host
/// controllers among the PCI functions, in the order they were found; so
/// there is one exactly when some PCI function is a USB host controller.
pub proof fn lemma_usb_of_first(devs: Seq<PciDevice>)
    ensures
        ({
            let f = devs.filter(|d: PciDevice| is_usb(d));
            &&& usb_of(devs) == f.take(if f.len() < MAX_CONTROLLERS { f.len() as int } else { MAX_CONTROLLERS as int })
            &&& usb_of(devs).len() > 0 <==> f.len() > 0
        }),
    decreases devs.len(),
{
    reveal(Seq::filter);
    let f = devs.filter(|d: PciDevice| is_usb(d));
    if devs.len() == 0 {
        assert(f.len() == 0);
        assert(f.take(0) =~= Seq::<PciDevice>::empty());
    } else {
        lemma_usb_of_first(devs.drop_last());
        let g = devs.drop_last().filter(|d: PciDevice| is_usb(d));
        let rest = usb_of(devs.drop_last());
        if is_usb(devs.last()) {
            assert(f == g.push(devs.last()));
            if g.len() < MAX_CONTROLLERS {
                assert(rest =~= g);
                assert(f.take(f.len() as int) =~= f);
            } else {
                assert(f.take(MAX_CONTROLLERS as int) =~= g.take(MAX_CONTROLLERS as int));
            }
        } else {
            assert(f == g);
        }
    }
}

/// The USB controllers among the PCI functions `devices` (see `usb_of`).
pub fn controllers(devices: &[PciDevice]) -> (r: Vec<UsbController>)
    ensures
        r@.len() == usb_of(devices@).len(),
        forall|i: int| 0 <= i < r@.len() ==> #[trigger] r@[i] == controller_of(usb_of(devices@)[i]),
{
    let mut out: Vec<UsbController> = Vec::new();
    let mut i: usize = 0;
    while i < devices.len()
        invariant
            i <= devices@.len(),
            out@.len() == usb_of(devices@.take(i as int)).len(),
            forall|j: int| 0 <= j < out@.len() ==> #[trigger] out@[j] == controller_of(usb_of(devices@.take(i as int))[j]),
        decreases devices@.len() - i,
    {
        let d = devices[i];
        proof {
            assert(devices@.take(i + 1).drop_last() =~= devices@.take(i as int));
            assert(devices@.take(i + 1).last() == d);
            lemma_usb_of_small(devices@.take(i as int));
        }
        if d.class_code == 0x0C && d.subclass == 0x03 && out.len() < MAX_CONTROLLERS {
            let kind = kind_from_prog_if(d.prog_if);
            out.push(UsbController { kind, bus: d.bus, dev: d.dev, func: d.func, bars: d.bars, irq_line: d.irq_line });
        }
        i = i + 1;
    }
    proof {
        assert(devices@.take(devices@.len() as int) =~= devices@);
    }
    out
}

/// Whether any USB controller is among `devices`.
pub fn any_usb(devices: &[PciDevice]) -> (r: bool)
    ensures
        r == (usb_of(devices@).len() > 0),
{
    let c = controllers(devices);
    c.len() > 0
}

} // verus!
