//! What the client does with each message from the server: the decisions of
//! the message loop, as a step from the client state and a message to the
//! next state and the outputs to carry out.
use vstd::prelude::*;

use crate::clipboard::{
    opt_text, ClipboardContent, ClipboardError, ClipboardState, ClipboardView, ContentView,
};
use crate::device::{
    spec_button, spec_button_convert, spec_keyboard, MouseButton, MouseEventType, spec_leave_screen, spec_move_abs, spec_scroll, ButtonType,
    DeviceAction, DeviceView, FakeDevice, KeyState,
};
use crate::protocol::{
    decode_message, frame_message, framed, info_body, info_message, keep_alive_bytes,
    keep_alive_message, spec_decode_message, well_sized, ScreenSize, ServerMessage,
};

verus! {

/// The state the message loop keeps.
#[derive(Debug)]
pub struct ClientState {
    pub screen_size: ScreenSize,
    /// Sequence number of the last screen entry.
    pub enter_sequence: u32,
    pub clipboard: ClipboardState,
    pub fake_device: FakeDevice,
}

/// The model of a `ClientState`.
pub struct ClientView {
    pub screen_size: ScreenSize,
    pub enter_sequence: u32,
    pub clipboard: ClipboardView,
    pub device: DeviceView,
}

impl View for ClientState {
    type V = ClientView;

    open spec fn view(&self) -> ClientView {
        ClientView {
            screen_size: self.screen_size,
            enter_sequence: self.enter_sequence,
            clipboard: self.clipboard@,
            device: self.fake_device@,
        }
    }
}

impl ClientState {
    /// The state at connection time: nothing entered yet, no clipboard
    /// transfer, a fresh device.
    pub fn new(screen_size: ScreenSize) -> (res: Self)
        ensures
            res@ == (ClientView {
                screen_size,
                enter_sequence: 0,
                clipboard: crate::clipboard::empty_view(),
                device: crate::device::initial_view(),
            }),
            res.fake_device.wf(),
    {
        ClientState {
            screen_size,
            enter_sequence: 0,
            clipboard: ClipboardState::new(),
            fake_device: FakeDevice::new(screen_size),
        }
    }
}

/// Something for the platform layer to do.
#[derive(Debug)]
pub enum Output {
    /// Write these bytes to the server as they are.
    Send(Vec<u8>),
    /// Post this input event.
    Device(DeviceAction),
    /// Put this text into the local clipboard, then tell the clipboard state
    /// with `ClipboardState::remote_text_written`.
    WriteClipboard(String),
    /// Put this BMP file into the local clipboard as an image, then tell the
    /// clipboard state with `ClipboardState::remote_image_written`.
    WriteClipboardImage(Vec<u8>),
}

/// The model of an `Output`.
pub enum OutputView {
    Send(Seq<u8>),
    Device(DeviceAction),
    WriteClipboard(Seq<char>),
    WriteClipboardImage(Seq<u8>),
}

impl View for Output {
    type V = OutputView;

    open spec fn view(&self) -> OutputView {
        match self {
            Output::Send(b) => OutputView::Send(b@),
            Output::Device(a) => OutputView::Device(*a),
            Output::WriteClipboard(t) => OutputView::WriteClipboard(t@),
            Output::WriteClipboardImage(b) => OutputView::WriteClipboardImage(b@),
        }
    }
}

/// The models of a list of outputs.
pub open spec fn outputs_view(outs: Seq<Output>) -> Seq<OutputView> {
    outs.map_values(|o: Output| o@)
}

/// Input events as outputs.
pub open spec fn device_outputs(acts: Seq<DeviceAction>) -> Seq<OutputView> {
    acts.map_values(|a: DeviceAction| OutputView::Device(a))
}

/// Why a message stops the client.
#[derive(Debug, Clone, Copy, PartialEq, Eq, Structural)]
pub enum HandlerError {
    /// A message code the client does not know.
    UnknownMessage,
    /// The server does not know this client's name.
    UnknownClient,
    /// A malformed clipboard message.
    Clipboard(ClipboardError),
}

/// The server's mouse button numbers: 1 left, 2 middle, 3 right, any
/// other an extra button.
pub open spec fn spec_decode_mouse_button(code: u8) -> ButtonType {
    if code == 1 {
        ButtonType::Left
    } else if code == 2 {
        ButtonType::Middle
    } else if code == 3 {
        ButtonType::Right
    } else {
        ButtonType::Extra
    }
}

/// Reads a mouse button number from the server.
pub fn decode_mouse_button(code: u8) -> (res: ButtonType)
    ensures
        res == spec_decode_mouse_button(code),
{
    match code {
        1 => ButtonType::Left,
        2 => ButtonType::Middle,
        3 => ButtonType::Right,
        _ => ButtonType::Extra,
    }
}

/// Each of the server's button numbers 1, 2 and 3 stands for its own
/// button (left, middle, right), and every other number for an extra button,
/// which is pressed and released as the platform's other (center) button.
pub proof fn lemma_mouse_button_codes(code: u8)
    ensures
        (spec_decode_mouse_button(code) == ButtonType::Left) <==> code == 1,
        (spec_decode_mouse_button(code) == ButtonType::Middle) <==> code == 2,
        (spec_decode_mouse_button(code) == ButtonType::Right) <==> code == 3,
        (spec_decode_mouse_button(code) == ButtonType::Extra) <==> (code != 1 && code != 2 && code
            != 3),
        code != 1 && code != 2 && code != 3 ==> spec_button_convert(spec_decode_mouse_button(code))
            == (MouseButton::Center, MouseEventType::OtherMouseDown, MouseEventType::OtherMouseUp),
        code == 3 ==> spec_button_convert(spec_decode_mouse_button(code)) == (
            MouseButton::Right,
            MouseEventType::RightMouseDown,
            MouseEventType::RightMouseUp,
        ),
{
}

/// A model after a message, and what the message gives.
pub type ClientStep = (ClientView, Result<Seq<OutputView>, HandlerError>);

/// A device step as a client step.
pub open spec fn device_step(c: ClientView, step: (DeviceView, Seq<DeviceAction>)) -> ClientStep {
    (ClientView { device: step.0, ..c }, Ok(device_outputs(step.1)))
}

/// A clipboard step as a client step.
pub open spec fn clipboard_step(
    c: ClientView,
    step: (ClipboardView, Result<Option<ContentView>, ClipboardError>),
) -> ClientStep {
    (
        ClientView { clipboard: step.0, ..c },
        match step.1 {
            Err(e) => Err(HandlerError::Clipboard(e)),
            Ok(None) => Ok(Seq::empty()),
            Ok(Some(ContentView::Text(t))) => Ok(seq![OutputView::WriteClipboard(t)]),
            Ok(Some(ContentView::Image(b))) => Ok(seq![OutputView::WriteClipboardImage(b)]),
        },
    )
}

/// What a grab message does to the clipboard model.
pub open spec fn grab_step(c: ClientView, msg: Seq<u8>) -> ClientStep {
    if msg.len() < 9 {
        (c, Err(HandlerError::Clipboard(ClipboardError::ShortGrab)))
    } else if msg[4] != crate::clipboard::CLIPBOARD_ID {
        (c, Ok(Seq::empty()))
    } else {
        (
            ClientView { clipboard: crate::clipboard::transfer_reset(c.clipboard), ..c },
            Ok(Seq::empty()),
        )
    }
}

/// What the client does with a well-sized message from the server.
pub open spec fn spec_handle_message(c: ClientView, msg: Seq<u8>) -> ClientStep {
    match spec_decode_message(msg) {
        Err(_) => (c, Err(HandlerError::UnknownMessage)),
        Ok(m) => match m {
            ServerMessage::QueryInfo => (
                c,
                Ok(seq![OutputView::Send(framed(info_body(c.screen_size)))]),
            ),
            ServerMessage::InfoAck => (c, Ok(Seq::empty())),
            ServerMessage::Ignored => (c, Ok(Seq::empty())),
            ServerMessage::KeyRepeat => (c, Ok(Seq::empty())),
            ServerMessage::ClipboardGrab => grab_step(c, msg),
            ServerMessage::ClipboardData => clipboard_step(
                c,
                crate::clipboard::spec_handle_clipboard_message(c.clipboard, msg),
            ),
            ServerMessage::KeepAlive => (c, Ok(seq![OutputView::Send(keep_alive_bytes())])),
            ServerMessage::MouseMove { x, y } => device_step(
                c,
                spec_move_abs(c.device, x as i32, y as i32),
            ),
            ServerMessage::EnterScreen { x, y, sequence } => {
                let (c1, r) = device_step(c, spec_move_abs(c.device, x as i32, y as i32));
                (ClientView { enter_sequence: sequence, ..c1 }, r)
            },
            ServerMessage::MouseDown { button } => device_step(
                c,
                spec_button(c.device, spec_decode_mouse_button(button), KeyState::DOWN),
            ),
            ServerMessage::MouseUp { button } => device_step(
                c,
                spec_button(c.device, spec_decode_mouse_button(button), KeyState::UP),
            ),
            ServerMessage::MouseWheel { horizontal, vertical } => device_step(
                c,
                spec_scroll(c.device, horizontal, vertical),
            ),
            ServerMessage::LeaveScreen => device_step(c, spec_leave_screen(c.device)),
            ServerMessage::UnknownClient => (c, Err(HandlerError::UnknownClient)),
            ServerMessage::KeyDown { scancode } => device_step(
                c,
                spec_keyboard(c.device, scancode, KeyState::DOWN),
            ),
            ServerMessage::KeyUp { scancode } => device_step(
                c,
                spec_keyboard(c.device, scancode, KeyState::UP),
            ),
        },
    }
}

/// No message changes the screen size, and only a screen entry changes the
/// entry sequence number.
pub proof fn lemma_handle_keeps_screen(c: ClientView, msg: Seq<u8>)
    ensures
        spec_handle_message(c, msg).0.screen_size == c.screen_size,
        crate::protocol::code_of(msg) != crate::protocol::CODE_CINN ==> spec_handle_message(
            c,
            msg,
        ).0.enter_sequence == c.enter_sequence,
{
}

/// Wraps input events as outputs.
fn device_outputs_of(acts: Vec<DeviceAction>) -> (res: Vec<Output>)
    ensures
        outputs_view(res@) == device_outputs(acts@),
{
    let mut out: Vec<Output> = Vec::new();
    let mut i: usize = 0;
    while i < acts.len()
        invariant
            i <= acts@.len(),
            outputs_view(out@) == device_outputs(acts@.subrange(0, i as int)),
        decreases acts@.len() - i,
    {
        let ghost before = out@;
        out.push(Output::Device(acts[i]));
        proof {
            assert(outputs_view(out@) =~= outputs_view(before).push(OutputView::Device(acts@[i as int])));
            assert(device_outputs(acts@.subrange(0, i + 1)) =~= device_outputs(
                acts@.subrange(0, i as int),
            ).push(OutputView::Device(acts@[i as int])));
        }
        i = i + 1;
    }
    proof {
        assert(acts@.subrange(0, acts@.len() as int) =~= acts@);
    }
    out
}

/// One output.
fn single(o: Output) -> (res: Vec<Output>)
    ensures
        outputs_view(res@) == seq![o@],
{
    let mut out: Vec<Output> = Vec::new();
    out.push(o);
    proof {
        assert(outputs_view(out@) =~= seq![o@]);
    }
    out
}

/// No output.
fn nothing() -> (res: Vec<Output>)
    ensures
        outputs_view(res@) == Seq::<OutputView>::empty(),
{
    let out: Vec<Output> = Vec::new();
    proof {
        assert(outputs_view(out@) =~= Seq::<OutputView>::empty());
    }
    out
}

/// The outputs of a result, as models.
pub open spec fn result_view(r: Result<Vec<Output>, HandlerError>) -> Result<
    Seq<OutputView>,
    HandlerError,
> {
    match r {
        Ok(v) => Ok(outputs_view(v@)),
        Err(e) => Err(e),
    }
}

/// Handles one message from the server: updates the state and returns what
/// to carry out, or why the client has to stop.
pub fn handle_message(msg: &[u8], client: &mut ClientState) -> (res: Result<Vec<Output>, HandlerError>)
    requires
        well_sized(msg@),
        old(client).fake_device.wf(),
    ensures
        final(client)@ == spec_handle_message(old(client)@, msg@).0,
        result_view(res) == spec_handle_message(old(client)@, msg@).1,
        final(client).fake_device.wf(),
{
    let m = match decode_message(msg) {
        Ok(m) => m,
        Err(_) => return Err(HandlerError::UnknownMessage),
    };
    match m {
        ServerMessage::QueryInfo => {
            let body = info_message(client.screen_size);
            Ok(single(Output::Send(frame_message(body.as_slice()))))
        },
        ServerMessage::InfoAck => Ok(nothing()),
        ServerMessage::Ignored => Ok(nothing()),
        ServerMessage::KeyRepeat => Ok(nothing()),
        ServerMessage::ClipboardGrab => match client.clipboard.handle_clipboard_grab(msg) {
            Ok(()) => Ok(nothing()),
            Err(e) => Err(HandlerError::Clipboard(e)),
        },
        ServerMessage::ClipboardData => match client.clipboard.handle_clipboard_message(msg) {
            Ok(Some(ClipboardContent::Text(text))) => Ok(single(Output::WriteClipboard(text))),
            Ok(Some(ClipboardContent::Image(bmp))) => Ok(
                single(Output::WriteClipboardImage(bmp)),
            ),
            Ok(None) => Ok(nothing()),
            Err(e) => Err(HandlerError::Clipboard(e)),
        },
        ServerMessage::KeepAlive => Ok(single(Output::Send(keep_alive_message()))),
        ServerMessage::MouseMove { x, y } => {
            let acts = client.fake_device.move_abs(x as i32, y as i32);
            Ok(device_outputs_of(acts))
        },
        ServerMessage::EnterScreen { x, y, sequence } => {
            let acts = client.fake_device.move_abs(x as i32, y as i32);
            client.enter_sequence = sequence;
            Ok(device_outputs_of(acts))
        },
        ServerMessage::MouseDown { button } => {
            let acts = client.fake_device.button(decode_mouse_button(button), KeyState::DOWN);
            Ok(device_outputs_of(acts))
        },
        ServerMessage::MouseUp { button } => {
            let acts = client.fake_device.button(decode_mouse_button(button), KeyState::UP);
            Ok(device_outputs_of(acts))
        },
        ServerMessage::MouseWheel { horizontal, vertical } => {
            let acts = client.fake_device.scroll(horizontal, vertical);
            Ok(device_outputs_of(acts))
        },
        ServerMessage::LeaveScreen => {
            let acts = client.fake_device.leave_screen();
            Ok(device_outputs_of(acts))
        },
        ServerMessage::UnknownClient => Err(HandlerError::UnknownClient),
        ServerMessage::KeyDown { scancode } => {
            let acts = client.fake_device.keyboard(scancode, KeyState::DOWN);
            Ok(device_outputs_of(acts))
        },
        ServerMessage::KeyUp { scancode } => {
            let acts = client.fake_device.keyboard(scancode, KeyState::UP);
            Ok(device_outputs_of(acts))
        },
    }
}

} // verus!
