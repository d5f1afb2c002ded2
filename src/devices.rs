use vstd::prelude::*;

use crossbeam::channel::{Receiver, Sender};
use std::sync::{Arc, RwLock};

verus! {

#[verifier::external_type_specification]
#[verifier::external_body]
#[verifier::reject_recursive_types(T)]
pub struct ExSender<T>(Sender<T>);

#[verifier::external_type_specification]
#[verifier::external_body]
#[verifier::reject_recursive_types(T)]
pub struct ExReceiver<T>(Receiver<T>);

#[verifier::external_type_specification]
#[verifier::external_body]
#[verifier::reject_recursive_types(T)]
pub struct ExRwLock<T: ?Sized>(RwLock<T>);

/// The bound that a channel was created with, as the receiving end reports it.
pub uninterp spec fn receiver_capacity(r: Receiver<u16>) -> Option<usize>;

/// Relies on crossbeam::channel::bounded: a channel that holds at most one message.
#[verifier::external_body]
pub(crate) fn single_slot_channel() -> (r: (Sender<u16>, Receiver<u16>))
    ensures
        receiver_capacity(r.1) == Some(1usize),
{
    crossbeam::channel::bounded(1)
}

/// Relies on crossbeam::channel::Sender::clone: another sending end of the same channel.
#[verifier::external_body]
pub(crate) fn clone_sender(s: &Sender<u16>) -> Sender<u16> {
    s.clone()
}

/// Relies on crossbeam::channel::Sender::try_send: `true` when the message was queued, `false`
/// when the channel was full or disconnected. Other threads share the channel, so nothing is
/// promised about which.
#[verifier::external_body]
pub(crate) fn offer(s: &Sender<u16>, message: u16) -> bool {
    s.try_send(message).is_ok()
}

/// Relies on crossbeam::channel::Receiver::is_full. Other threads share the channel, so
/// nothing is promised about the answer.
#[verifier::external_body]
pub(crate) fn channel_full(r: &Receiver<u16>) -> bool {
    r.is_full()
}

/// Relies on crossbeam::channel::Receiver::try_recv: the message taken, if one was there.
#[verifier::external_body]
pub(crate) fn take_message(r: &Receiver<u16>) -> Option<u16> {
    r.try_recv().ok()
}

/// Relies on std::sync::RwLock::new: a lock holding `mask`.
#[verifier::external_body]
pub(crate) fn new_mask_lock(mask: [u16; 16]) -> RwLock<[u16; 16]> {
    RwLock::new(mask)
}

/// Relies on std::sync::Arc::clone: another handle on the same lock.
#[verifier::external_body]
pub(crate) fn share_mask(m: &Arc<RwLock<[u16; 16]>>) -> Arc<RwLock<[u16; 16]>> {
    Arc::clone(m)
}

/// Relies on std::sync::RwLock::write: stores `mask` in the shared lock, also after a
/// holder of the lock panicked.
#[verifier::external_body]
pub(crate) fn publish_mask(m: &Arc<RwLock<[u16; 16]>>, mask: [u16; 16]) {
    match m.write() {
        Ok(mut guard) => *guard = mask,
        Err(poisoned) => *poisoned.into_inner() = mask,
    }
}

/// Relies on std::sync::RwLock::read: a copy of what the shared lock holds now. Other threads
/// share the lock, so nothing is promised about the value.
#[verifier::external_body]
pub(crate) fn snapshot_mask(m: &Arc<RwLock<[u16; 16]>>) -> [u16; 16] {
    match m.read() {
        Ok(guard) => *guard,
        Err(poisoned) => *poisoned.into_inner(),
    }
}

/// A device on the peripheral bus. `init` is called once, when the device is attached, with
/// the handle it may use to request hardware interrupts.
pub trait Device {
    fn init(&mut self, interrupt_handle: InterruptHandle);

    fn input(&mut self, context: u8) -> u16;

    fn output(&mut self, context: u8, value: u16);
}

/// The 256 slots of the peripheral bus. Slot 0 is reserved and never holds a device.
pub struct Devices {
    slots: Vec<Option<Box<dyn Device>>>,
}

impl Devices {
    /// Which slots hold a device.
    pub closed spec fn occupied(&self) -> Seq<bool> {
        Seq::new(self.slots@.len(), |i: int| self.slots@[i].is_some())
    }

    pub closed spec fn wf(&self) -> bool {
        &&& self.slots@.len() == 256
        &&& self.slots@[0].is_none()
    }

    pub fn new() -> (r: Devices)
        ensures
            r.wf(),
            forall|i: int| 0 <= i < 256 ==> !r.occupied()[i],
    {
        let mut slots: Vec<Option<Box<dyn Device>>> = Vec::new();
        let mut i: usize = 0;
        while i < 256
            invariant
                i <= 256,
                slots@.len() == i,
                forall|j: int| 0 <= j < i ==> slots@[j].is_none(),
            decreases 256 - i,
        {
            slots.push(None);
            i = i + 1;
        }
        Devices { slots }
    }

    pub fn is_attached(&self, index: u8) -> (r: bool)
        requires
            self.wf(),
        ensures
            r == self.occupied()[index as int],
    {
        self.slots[index as usize].is_some()
    }

    /// Puts `device` in slot `index`, replacing what was there. Slot 0 is reserved: it gives
    /// `false` and the bus is left as it was.
    pub fn insert(&mut self, index: u8, device: Box<dyn Device>) -> (r: bool)
        requires
            old(self).wf(),
        ensures
            final(self).wf(),
            r == (index != 0),
            r ==> final(self).occupied() == old(self).occupied().update(index as int, true),
            !r ==> final(self).occupied() == old(self).occupied(),
    {
        if index == 0 {
            return false;
        }
        self.slots[index as usize] = Some(device);
        proof {
            assert(self.occupied() =~= old(self).occupied().update(index as int, true));
        }
        true
    }

    /// Reads from the device in slot `index`; `None` when the slot is empty.
    pub fn input(&mut self, index: u8, context: u8) -> (r: Option<u16>)
        requires
            old(self).wf(),
        ensures
            final(self).wf(),
            final(self).occupied() == old(self).occupied(),
            r.is_some() == old(self).occupied()[index as int],
    {
        let ghost before = self.occupied();
        let r = match &mut self.slots[index as usize] {
            Some(device) => Some(device.input(context)),
            None => None,
        };
        proof {
            assert(self.occupied() =~= before);
        }
        r
    }

    /// Writes to the device in slot `index`; an empty slot ignores the write.
    pub fn output(&mut self, index: u8, context: u8, value: u16)
        requires
            old(self).wf(),
        ensures
            final(self).wf(),
            final(self).occupied() == old(self).occupied(),
    {
        let ghost before = self.occupied();
        match &mut self.slots[index as usize] {
            Some(device) => device.output(context, value),
            None => {},
        }
        proof {
            assert(self.occupied() =~= before);
        }
    }
}

/// The fabric that carries hardware interrupts: a channel with room for one pending
/// interrupt, and the interrupt mask as shared with the devices' handles.
pub struct InterruptLines {
    receiver: Receiver<u16>,
    sender: Sender<u16>,
    mask: Arc<RwLock<[u16; 16]>>,
}

impl InterruptLines {
    /// The bound of the channel.
    pub closed spec fn capacity(&self) -> Option<usize> {
        receiver_capacity(self.receiver)
    }

    pub fn new(mask: [u16; 16]) -> (r: InterruptLines)
        ensures
            r.capacity() == Some(1usize),
    {
        let (sender, receiver) = single_slot_channel();
        InterruptLines { receiver, sender, mask: Arc::new(new_mask_lock(mask)) }
    }

    /// A handle for the device in slot `device_index`.
    pub fn handle(&self, device_index: u8) -> (r: InterruptHandle)
        ensures
            r.device_index() == device_index,
    {
        InterruptHandle::new(device_index, clone_sender(&self.sender), share_mask(&self.mask))
    }

    /// Whether an interrupt is waiting to be taken.
    pub fn pending(&self) -> bool {
        channel_full(&self.receiver)
    }

    /// Takes the waiting interrupt's word, if there is one.
    pub fn take(&self) -> Option<u16> {
        take_message(&self.receiver)
    }

    /// Makes `mask` the mask that handles see.
    pub fn publish(&self, mask: [u16; 16]) {
        publish_mask(&self.mask, mask)
    }
}

/// Why a device's request for a hardware interrupt was refused.
#[derive(Debug, Clone, Copy, PartialEq, Eq, Hash)]
pub enum TryInterruptError {
    /// The global mask bit or the device's own mask bit is set.
    InterruptMasked,
    /// Another interrupt is pending and the processor has not yet taken it.
    Busy,
}

/// Whether interrupts from `device_index` are masked in `mask`: the global bit (bit 0 of the
/// first word) or the device's own bit.
pub open spec fn interrupt_masked(mask: Seq<u16>, device_index: u8) -> bool {
    mask[0] & 1 != 0 || mask[(device_index / 16) as int] & ((1u16 << (device_index % 16) as u16) as u16) != 0
}

/// The word a hardware interrupt carries: the device index in the high byte, the device's
/// context in the low byte.
pub open spec fn interrupt_word(device_index: u8, context: u8) -> u16 {
    (device_index * 256 + context) as u16
}

/// Decides a request for a hardware interrupt against a snapshot of the interrupt mask: the
/// word to send, or the refusal for a masked device.
pub fn interrupt_request(mask: &[u16; 16], device_index: u8, context: u8) -> (r: Result<u16, TryInterruptError>)
    ensures
        interrupt_masked(mask@, device_index) ==> r == Err::<u16, TryInterruptError>(TryInterruptError::InterruptMasked),
        !interrupt_masked(mask@, device_index) ==> r == Ok::<u16, TryInterruptError>(interrupt_word(device_index, context)),
{
    let all_masked = mask[0] & 1 != 0;
    let bit: u16 = 1u16 << ((device_index % 16) as u16);
    let own_masked = mask[(device_index / 16) as usize] & bit != 0;
    if all_masked || own_masked {
        Err(TryInterruptError::InterruptMasked)
    } else {
        Ok(device_index as u16 * 256 + context as u16)
    }
}

/// The capability a device holds to request hardware interrupts.
pub struct InterruptHandle {
    device_index: u8,
    sender: Sender<u16>,
    interrupt_mask: Arc<RwLock<[u16; 16]>>,
}

impl InterruptHandle {
    pub fn new(device_index: u8, sender: Sender<u16>, interrupt_mask: Arc<RwLock<[u16; 16]>>) -> (r: InterruptHandle)
        ensures
            r.device_index() == device_index,
    {
        InterruptHandle { device_index, sender, interrupt_mask }
    }

    pub closed spec fn device_index(&self) -> u8 {
        self.device_index
    }

    /// Requests a hardware interrupt with `context` in the low byte. It is refused when the
    /// mask now shared with the processor masks this device, and when another interrupt is
    /// still pending; either way the device may try again.
    pub fn try_interrupt(&self, context: u8) -> (r: Result<(), TryInterruptError>) {
        let mask = snapshot_mask(&self.interrupt_mask);
        match interrupt_request(&mask, self.device_index, context) {
            Ok(word) => {
                if offer(&self.sender, word) {
                    Ok(())
                } else {
                    Err(TryInterruptError::Busy)
                }
            },
            Err(e) => Err(e),
        }
    }
}


impl Default for Devices {
    fn default() -> (r: Devices)
        ensures
            r.wf(),
            forall|i: int| 0 <= i < 256 ==> !r.occupied()[i],
    {
        Devices::new()
    }
}

} // verus!
