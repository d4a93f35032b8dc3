//! What the application shows about its two activities: the receiving
//! service (its status, the offer waiting for the user, the bytes received)
//! and the current send (its status, PIN and bytes sent), with the activity
//! log they share. Each event of the service, the sender or the user moves
//! the board; the application renders it in the interface language.

use vstd::prelude::*;
use vstd::string::StringSliceAdditionalSpecFns;
use crate::quick_share_receiver::TransferOfferItem;
use crate::quick_share_sender::QuickShareSendProgress;

verus! {

/// The receiving service's status line.
#[derive(Clone, Debug, PartialEq, Eq)]
pub enum ReceiveStatus {
    NotStarted,
    InvalidName,
    MissingDirectory,
    Starting,
    Stopping,
    Listening,
    Incoming { peer_name: String },
    Accepted,
    Declined,
    Receiving { file_name: String },
    Received,
    ConnectionFailed,
    Stopped,
}

/// One line of the activity log.
#[derive(Clone, Debug, PartialEq, Eq)]
pub enum Activity {
    Listening { port: u16 },
    ConcurrentReject { peer_name: String },
    Received { peer_name: String, paths: String },
    ConnectionFailed { message: String },
    Sent { count: usize },
    SendFailed { message: String },
}

/// What to do with an offer that arrived.
#[derive(Clone, Copy, Debug, PartialEq, Eq, Structural)]
pub enum OfferReaction {
    /// Another offer waits for the user: decline this one at once.
    Reject,
    /// Show it and ask the user.
    Ask,
}

/// The receiving side of the board.
#[derive(Clone, Debug)]
pub struct ReceiveBoard {
    pub running: bool,
    /// The sender whose offer waits for the user's decision.
    pub pending: Option<String>,
    pub status: ReceiveStatus,
    pub received_bytes: u64,
    pub total_bytes: u64,
    pub activity: Vec<Activity>,
}

/// The sum of the sizes of an offer's items.
pub open spec fn sizes_total(items: Seq<TransferOfferItem>) -> int
    decreases items.len(),
{
    if items.len() == 0 {
        0
    } else {
        sizes_total(items.drop_last()) + items.last().size
    }
}

/// A count held in a `u64`, which stops at its largest value.
pub open spec fn capped(n: int) -> u64 {
    if n > u64::MAX {
        u64::MAX
    } else {
        n as u64
    }
}

/// Whether a display name, without surrounding white space, fits the wire:
/// 1 to 255 bytes of UTF-8.
pub open spec fn display_name_ok(name: &str) -> bool {
    1 <= name.spec_bytes().len() <= 255
}

/// Whether a display name, without surrounding white space, fits the wire.
pub fn display_name_usable(name: &str) -> (r: bool)
    ensures
        r == display_name_ok(name),
{
    let length = name.as_bytes().len();
    1 <= length && length <= 255
}

/// The total size of an offer's items, stopping at the largest `u64`.
pub fn offer_total(items: &[TransferOfferItem]) -> (r: u64)
    ensures
        r == capped(sizes_total(items@)),
{
    let mut total: u64 = 0;
    let mut i: usize = 0;
    while i < items.len()
        invariant
            i <= items@.len(),
            total == capped(sizes_total(items@.subrange(0, i as int))),
            sizes_total(items@.subrange(0, i as int)) >= 0,
        decreases items@.len() - i,
    {
        let ghost before = sizes_total(items@.subrange(0, i as int));
        assert(items@.subrange(0, i + 1).drop_last() =~= items@.subrange(0, i as int));
        assert(items@.subrange(0, i + 1).last() == items@[i as int]);
        assert(sizes_total(items@.subrange(0, i + 1)) == before + items@[i as int].size);
        total = total.saturating_add(items[i].size);
        i = i + 1;
    }
    assert(items@.subrange(0, items@.len() as int) =~= items@);
    total
}

impl ReceiveBoard {
    /// The board before the service was started.
    pub fn new() -> (r: Self)
        ensures
            !r.running,
            r.pending is None,
            r.status == ReceiveStatus::NotStarted,
            r.received_bytes == 0,
            r.total_bytes == 0,
            r.activity@.len() == 0,
    {
        ReceiveBoard {
            running: false,
            pending: None,
            status: ReceiveStatus::NotStarted,
            received_bytes: 0,
            total_bytes: 0,
            activity: Vec::new(),
        }
    }

    /// The user asked to start the service, under `display_name` and into
    /// `download_directory` (both without surrounding white space): whether
    /// to launch it. A running service is left alone; an unusable name or an
    /// empty folder is shown instead.
    pub fn start(&mut self, display_name: &str, download_directory: &str) -> (launch: bool)
        ensures
            old(self).running ==> !launch && *final(self) == *old(self),
            !old(self).running && !display_name_ok(display_name) ==> !launch && *final(self) == (ReceiveBoard {
                status: ReceiveStatus::InvalidName,
                ..*old(self)
            }),
            !old(self).running && display_name_ok(display_name) && download_directory@.len() == 0 ==> !launch
                && *final(self) == (ReceiveBoard { status: ReceiveStatus::MissingDirectory, ..*old(self) }),
            !old(self).running && display_name_ok(display_name) && download_directory@.len() > 0 ==> launch
                && *final(self) == (ReceiveBoard { running: true, status: ReceiveStatus::Starting, ..*old(self) }),
    {
        if self.running {
            return false;
        }
        if !display_name_usable(display_name) {
            self.status = ReceiveStatus::InvalidName;
            return false;
        }
        if download_directory.is_empty() {
            self.status = ReceiveStatus::MissingDirectory;
            return false;
        }
        self.running = true;
        self.status = ReceiveStatus::Starting;
        true
    }

    /// The user asked to stop the service: the sender whose offer must now
    /// be declined, if one was waiting.
    pub fn stop(&mut self) -> (declined: Option<String>)
        ensures
            declined == old(self).pending,
            *final(self) == (ReceiveBoard { pending: None, status: ReceiveStatus::Stopping, ..*old(self) }),
    {
        let declined = self.pending.take();
        self.status = ReceiveStatus::Stopping;
        declined
    }

    /// The service listens on `port`.
    pub fn listening(&mut self, port: u16)
        ensures
            final(self).activity@ == old(self).activity@.push(Activity::Listening { port }),
            *final(self) == (ReceiveBoard {
                status: ReceiveStatus::Listening,
                activity: final(self).activity,
                ..*old(self)
            }),
    {
        self.status = ReceiveStatus::Listening;
        self.activity.push(Activity::Listening { port });
    }

    /// An offer from `peer_name` arrived. While another offer waits for the
    /// user it is declined at once and logged; otherwise it waits for the
    /// user, and its total size is what the transfer will receive.
    pub fn offer(&mut self, peer_name: String, items: &[TransferOfferItem]) -> (r: OfferReaction)
        ensures
            old(self).pending is Some ==> r == OfferReaction::Reject && final(self).activity@ == old(
                self,
            ).activity@.push(Activity::ConcurrentReject { peer_name }) && *final(self) == (ReceiveBoard {
                activity: final(self).activity,
                ..*old(self)
            }),
            old(self).pending is None ==> r == OfferReaction::Ask && *final(self) == (ReceiveBoard {
                pending: Some(peer_name),
                status: ReceiveStatus::Incoming { peer_name },
                received_bytes: 0,
                total_bytes: capped(sizes_total(items@)),
                ..*old(self)
            }),
    {
        if self.pending.is_some() {
            self.activity.push(Activity::ConcurrentReject { peer_name });
            return OfferReaction::Reject;
        }
        self.total_bytes = offer_total(items);
        self.received_bytes = 0;
        self.status = ReceiveStatus::Incoming { peer_name: peer_name.clone() };
        self.pending = Some(peer_name);
        OfferReaction::Ask
    }

    /// The user decided on the waiting offer.
    pub fn decide(&mut self, accepted: bool)
        requires
            old(self).pending is Some,
        ensures
            *final(self) == (ReceiveBoard {
                pending: None,
                status: if accepted {
                    ReceiveStatus::Accepted
                } else {
                    ReceiveStatus::Declined
                },
                ..*old(self)
            }),
    {
        self.pending = None;
        self.status = if accepted {
            ReceiveStatus::Accepted
        } else {
            ReceiveStatus::Declined
        };
    }

    /// A file is arriving; `received_bytes` of `total_bytes` are in.
    pub fn receiving(&mut self, received_bytes: u64, total_bytes: u64, file_name: String)
        ensures
            *final(self) == (ReceiveBoard {
                received_bytes,
                total_bytes,
                status: ReceiveStatus::Receiving { file_name },
                ..*old(self)
            }),
    {
        self.received_bytes = received_bytes;
        self.total_bytes = total_bytes;
        self.status = ReceiveStatus::Receiving { file_name };
    }

    /// A transfer from `peer_name` was saved to `paths`: everything
    /// announced is in, and it is logged.
    pub fn received(&mut self, peer_name: String, paths: String)
        ensures
            final(self).activity@ == old(self).activity@.push(Activity::Received { peer_name, paths }),
            *final(self) == (ReceiveBoard {
                status: ReceiveStatus::Received,
                received_bytes: old(self).total_bytes,
                activity: final(self).activity,
                ..*old(self)
            }),
    {
        self.status = ReceiveStatus::Received;
        self.received_bytes = self.total_bytes;
        self.activity.push(Activity::Received { peer_name, paths });
    }

    /// A connection failed with `message`; the service keeps listening.
    pub fn connection_failed(&mut self, message: String)
        ensures
            final(self).activity@ == old(self).activity@.push(Activity::ConnectionFailed { message }),
            *final(self) == (ReceiveBoard {
                status: ReceiveStatus::ConnectionFailed,
                activity: final(self).activity,
                ..*old(self)
            }),
    {
        self.status = ReceiveStatus::ConnectionFailed;
        self.activity.push(Activity::ConnectionFailed { message });
    }

    /// The service stopped: nothing waits for the user any more.
    pub fn stopped(&mut self)
        ensures
            *final(self) == (ReceiveBoard {
                running: false,
                pending: None,
                status: ReceiveStatus::Stopped,
                ..*old(self)
            }),
    {
        self.running = false;
        self.pending = None;
        self.status = ReceiveStatus::Stopped;
    }
}

/// How long a selection waits, in milliseconds, before the QR code is shown
/// on its own.
pub const AUTO_QR_DELAY_MILLIS: u64 = 1800;

/// Where the current send goes.
#[derive(Clone, Debug, PartialEq, Eq)]
pub enum SendTarget {
    /// The phone that scans the QR code.
    Qr,
    /// A receiver found on the LAN.
    Device { name: String },
}

/// The send's status line.
#[derive(Clone, Debug, PartialEq, Eq)]
pub enum SendStatus {
    NothingSelected,
    Selected { count: usize },
    /// The QR session could not be made.
    QrUnavailable { message: String },
    /// The QR code could not be drawn.
    QrCodeFailed { message: String },
    AwaitingScan,
    QrCancelled,
    NoAddress,
    Connecting { device_name: String },
    Progress(QuickShareSendProgress),
    Failed { message: String },
}

/// The sending side of the board.
#[derive(Clone, Debug)]
pub struct SendBoard {
    pub running: bool,
    pub failed: bool,
    pub waiting_for_scan: bool,
    pub pin: Option<String>,
    pub target: Option<SendTarget>,
    pub sent_bytes: u64,
    pub total_bytes: u64,
    pub status: SendStatus,
}

impl SendBoard {
    /// The board before anything was selected.
    pub fn new() -> (r: Self)
        ensures
            !r.running && !r.failed && !r.waiting_for_scan,
            r.pin is None,
            r.target is None,
            r.sent_bytes == 0 && r.total_bytes == 0,
            r.status == SendStatus::NothingSelected,
    {
        SendBoard {
            running: false,
            failed: false,
            waiting_for_scan: false,
            pin: None,
            target: None,
            sent_bytes: 0,
            total_bytes: 0,
            status: SendStatus::NothingSelected,
        }
    }

    /// The selection changed and holds `selected` paths. While nothing is
    /// sent, a non-empty selection is shown and the last send's outcome
    /// forgotten.
    pub fn selection_changed(&mut self, selected: usize)
        ensures
            selected > 0 && !old(self).running ==> *final(self) == (SendBoard {
                failed: false,
                status: SendStatus::Selected { count: selected },
                pin: None,
                target: None,
                ..*old(self)
            }),
            !(selected > 0 && !old(self).running) ==> *final(self) == *old(self),
    {
        if selected > 0 && !self.running {
            self.failed = false;
            self.status = SendStatus::Selected { count: selected };
            self.pin = None;
            self.target = None;
        }
    }

    /// Whether the QR code is now due without being asked for: the send
    /// page is open, the setting asks for it, something is selected, no LAN
    /// receiver is in sight, nothing is being sent, no QR code is shown, the
    /// last send did not fail, and the selection was made at least
    /// [`AUTO_QR_DELAY_MILLIS`] ago.
    pub fn auto_qr_due(
        &self,
        on_send_page: bool,
        auto_show_qr: bool,
        selected: usize,
        nearby: usize,
        qr_shown: bool,
        waited_millis: Option<u64>,
    ) -> (r: bool)
        ensures
            r == (on_send_page && auto_show_qr && selected > 0 && nearby == 0 && !self.running && !qr_shown
                && !self.failed && (waited_millis matches Some(w) && w >= AUTO_QR_DELAY_MILLIS)),
    {
        let ready = on_send_page && auto_show_qr && selected > 0 && nearby == 0 && !self.running && !qr_shown
            && !self.failed;
        match waited_millis {
            Some(w) => ready && w >= AUTO_QR_DELAY_MILLIS,
            None => false,
        }
    }

    /// Whether a send of `selected` paths may begin: nothing is being sent
    /// and something is selected.
    pub fn can_begin(&self, selected: usize) -> (r: bool)
        ensures
            r == (!self.running && selected > 0),
    {
        !self.running && selected > 0
    }

    /// No QR session could be made; `message` says why.
    pub fn qr_unavailable(&mut self, message: String)
        ensures
            *final(self) == (SendBoard { status: SendStatus::QrUnavailable { message }, ..*old(self) }),
    {
        self.status = SendStatus::QrUnavailable { message };
    }

    /// The QR code could not be drawn; `message` says why.
    pub fn qr_code_failed(&mut self, message: String)
        ensures
            *final(self) == (SendBoard { status: SendStatus::QrCodeFailed { message }, ..*old(self) }),
    {
        self.status = SendStatus::QrCodeFailed { message };
    }

    /// The QR code is shown and the send of `total_bytes` waits for a
    /// phone to scan it.
    pub fn qr_shown(&mut self, total_bytes: u64)
        ensures
            *final(self) == (SendBoard {
                running: true,
                failed: false,
                waiting_for_scan: true,
                pin: None,
                target: Some(SendTarget::Qr),
                sent_bytes: 0,
                total_bytes,
                status: SendStatus::AwaitingScan,
            }),
    {
        self.running = true;
        self.failed = false;
        self.waiting_for_scan = true;
        self.pin = None;
        self.target = Some(SendTarget::Qr);
        self.sent_bytes = 0;
        self.total_bytes = total_bytes;
        self.status = SendStatus::AwaitingScan;
    }

    /// The user gave up waiting for a scan.
    pub fn qr_cancelled(&mut self)
        ensures
            *final(self) == (SendBoard {
                running: false,
                failed: false,
                waiting_for_scan: false,
                pin: None,
                target: None,
                sent_bytes: 0,
                status: SendStatus::QrCancelled,
                ..*old(self)
            }),
    {
        self.running = false;
        self.failed = false;
        self.waiting_for_scan = false;
        self.pin = None;
        self.target = None;
        self.sent_bytes = 0;
        self.status = SendStatus::QrCancelled;
    }

    /// The user picked the LAN receiver `device_name` for a send of
    /// `selected` paths and `total_bytes`: whether to start it. Nothing
    /// starts while a send runs or nothing is selected, nor when the
    /// receiver has no address.
    pub fn direct(&mut self, device_name: String, has_address: bool, selected: usize, total_bytes: u64) -> (start:
        bool)
        ensures
            !(!old(self).running && selected > 0) ==> !start && *final(self) == *old(self),
            !old(self).running && selected > 0 && !has_address ==> !start && *final(self) == (SendBoard {
                status: SendStatus::NoAddress,
                ..*old(self)
            }),
            !old(self).running && selected > 0 && has_address ==> start && *final(self) == (SendBoard {
                running: true,
                failed: false,
                pin: None,
                target: Some(SendTarget::Device { name: device_name }),
                sent_bytes: 0,
                total_bytes,
                status: SendStatus::Connecting { device_name },
                ..*old(self)
            }),
    {
        if self.running || selected == 0 {
            return false;
        }
        if !has_address {
            self.status = SendStatus::NoAddress;
            return false;
        }
        self.running = true;
        self.failed = false;
        self.pin = None;
        self.sent_bytes = 0;
        self.total_bytes = total_bytes;
        self.status = SendStatus::Connecting { device_name: device_name.clone() };
        self.target = Some(SendTarget::Device { name: device_name });
        true
    }

    /// A step of the send of `selected` paths: what it shows, and the line
    /// to log when the send completed.
    pub fn progress(&mut self, progress: QuickShareSendProgress, selected: usize) -> (logged: Option<Activity>)
        ensures
            match progress {
                QuickShareSendProgress::PhoneFound { .. } => logged is None && *final(self) == (SendBoard {
                    waiting_for_scan: false,
                    status: SendStatus::Progress(progress),
                    ..*old(self)
                }),
                QuickShareSendProgress::VerificationPin { pin } => logged is None && *final(self) == (SendBoard {
                    pin: Some(pin),
                    status: SendStatus::Progress(progress),
                    ..*old(self)
                }),
                QuickShareSendProgress::Sending { sent_bytes, total_bytes, .. } => logged is None && *final(self)
                    == (SendBoard { sent_bytes, total_bytes, status: SendStatus::Progress(progress), ..*old(self) }),
                QuickShareSendProgress::Complete => logged == Some(Activity::Sent { count: selected })
                    && *final(self) == (SendBoard {
                    running: false,
                    waiting_for_scan: false,
                    sent_bytes: old(self).total_bytes,
                    status: SendStatus::Progress(progress),
                    ..*old(self)
                }),
                _ => logged is None && *final(self) == (SendBoard {
                    status: SendStatus::Progress(progress),
                    ..*old(self)
                }),
            },
    {
        let mut logged = None;
        match &progress {
            QuickShareSendProgress::PhoneFound { .. } => {
                self.waiting_for_scan = false;
            },
            QuickShareSendProgress::VerificationPin { pin } => {
                self.pin = Some(pin.clone());
            },
            QuickShareSendProgress::Sending { sent_bytes, total_bytes, .. } => {
                self.sent_bytes = *sent_bytes;
                self.total_bytes = *total_bytes;
            },
            QuickShareSendProgress::Complete => {
                self.running = false;
                self.waiting_for_scan = false;
                self.sent_bytes = self.total_bytes;
                logged = Some(Activity::Sent { count: selected });
            },
            _ => {},
        }
        self.status = SendStatus::Progress(progress);
        logged
    }

    /// The send failed; `message` says why. The line to log.
    pub fn failed(&mut self, message: String) -> (logged: Activity)
        ensures
            logged == (Activity::SendFailed { message }),
            *final(self) == (SendBoard {
                running: false,
                failed: true,
                waiting_for_scan: false,
                status: SendStatus::Failed { message },
                ..*old(self)
            }),
    {
        self.running = false;
        self.failed = true;
        self.waiting_for_scan = false;
        self.status = SendStatus::Failed { message: message.clone() };
        Activity::SendFailed { message }
    }
}

} // verus!
