//! The CH9120 UART-to-Ethernet bridge: its configuration frames and the
//! sequence of control-line changes, pauses and frames that configures it.

use vstd::prelude::*;

verus! {

/// Every configuration frame starts with these two bytes.
pub const FRAME_PREFIX_0: u8 = 0x57;

pub const FRAME_PREFIX_1: u8 = 0xAB;

pub const CMD_MODE: u8 = 0x10;

pub const CMD_LOCAL_IP: u8 = 0x11;

pub const CMD_SUBNET_MASK: u8 = 0x12;

pub const CMD_GATEWAY: u8 = 0x13;

pub const CMD_LOCAL_PORT: u8 = 0x14;

pub const CMD_TARGET_IP: u8 = 0x15;

pub const CMD_TARGET_PORT: u8 = 0x16;

pub const CMD_UART1_BAUD: u8 = 0x21;

pub const CMD_SAVE: u8 = 0x0D;

pub const CMD_APPLY: u8 = 0x0E;

pub const CMD_RESTART: u8 = 0x5E;

/// The baud rate the bridge listens at while being configured.
pub const CONFIG_BAUD: u32 = 9_600;

/// How the bridge uses the network.
#[derive(Clone, Copy, PartialEq, Eq, Structural, Debug)]
pub enum NetworkMode {
    TcpServer,
    TcpClient,
    UdpServer,
    UdpClient,
}

/// The mode's code in the configuration frame.
pub open spec fn mode_code(mode: NetworkMode) -> u8 {
    match mode {
        NetworkMode::TcpServer => 0,
        NetworkMode::TcpClient => 1,
        NetworkMode::UdpServer => 2,
        NetworkMode::UdpClient => 3,
    }
}

/// The client modes talk to a fixed remote endpoint.
pub open spec fn is_client(mode: NetworkMode) -> bool {
    mode == NetworkMode::TcpClient || mode == NetworkMode::UdpClient
}

impl NetworkMode {
    /// The mode's code in the configuration frame.
    pub fn as_u8(self) -> (r: u8)
        ensures
            r == mode_code(self),
    {
        match self {
            NetworkMode::TcpServer => 0,
            NetworkMode::TcpClient => 1,
            NetworkMode::UdpServer => 2,
            NetworkMode::UdpClient => 3,
        }
    }

    /// Whether the mode needs the target IP and port.
    pub fn uses_target_endpoint(self) -> (r: bool)
        ensures
            r == is_client(self),
    {
        match self {
            NetworkMode::TcpClient | NetworkMode::UdpClient => true,
            _ => false,
        }
    }
}

/// The settings written to the bridge.
#[derive(Clone, Copy, Debug)]
pub struct NetworkConfig {
    pub mode: NetworkMode,
    pub local_ip: [u8; 4],
    pub subnet_mask: [u8; 4],
    pub gateway: [u8; 4],
    pub local_port: u16,
    pub target_ip: [u8; 4],
    pub target_port: u16,
    pub transport_baud: u32,
}

/// The bridge's two control lines.
#[derive(Clone, Copy, PartialEq, Eq, Structural, Debug)]
pub enum ControlLine {
    /// `CFG`: low selects configuration mode.
    Cfg,
    /// `RST`: low holds the bridge in reset.
    Reset,
}

/// One thing to do while talking to the bridge.
#[derive(Debug)]
pub enum ConfigStep {
    /// Drive a control line high (`true`) or low.
    SetLine(ControlLine, bool),
    /// Wait this many milliseconds.
    DelayMs(u32),
    /// Send these bytes over the UART.
    Send(Vec<u8>),
}

/// A `ConfigStep` with its bytes as a sequence.
pub enum StepView {
    SetLine(ControlLine, bool),
    DelayMs(u32),
    Send(Seq<u8>),
}

impl View for ConfigStep {
    type V = StepView;

    open spec fn view(&self) -> StepView {
        match self {
            ConfigStep::SetLine(line, high) => StepView::SetLine(*line, *high),
            ConfigStep::DelayMs(ms) => StepView::DelayMs(*ms),
            ConfigStep::Send(bytes) => StepView::Send(bytes@),
        }
    }
}

/// The views of a list of steps.
pub open spec fn steps_view(steps: Seq<ConfigStep>) -> Seq<StepView> {
    steps.map_values(|s: ConfigStep| s@)
}

/// A configuration frame: the prefix, the command byte, the payload.
pub open spec fn frame(command: u8, payload: Seq<u8>) -> Seq<u8> {
    seq![FRAME_PREFIX_0, FRAME_PREFIX_1, command] + payload
}

/// A 16-bit value, low byte first.
pub open spec fn le16(v: u16) -> Seq<u8> {
    seq![(v & 0xff) as u8, (v >> 8) as u8]
}

/// A 32-bit value, low byte first.
pub open spec fn le32(v: u32) -> Seq<u8> {
    seq![(v & 0xff) as u8, ((v >> 8) & 0xff) as u8, ((v >> 16) & 0xff) as u8, (v >> 24) as u8]
}

/// Sending one frame: a 10 ms pause on each side of it.
pub open spec fn frame_steps(command: u8, payload: Seq<u8>) -> Seq<StepView> {
    seq![StepView::DelayMs(10), StepView::Send(frame(command, payload)), StepView::DelayMs(10)]
}

/// Entering configuration mode: out of reset, `CFG` low, half a second to settle.
pub open spec fn enter_config_steps() -> Seq<StepView> {
    seq![
        StepView::SetLine(ControlLine::Reset, true),
        StepView::SetLine(ControlLine::Cfg, false),
        StepView::DelayMs(500),
    ]
}

/// Leaving configuration mode: save, apply and restart, with pauses between,
/// then `CFG` high again.
pub open spec fn exit_config_steps() -> Seq<StepView> {
    frame_steps(CMD_SAVE, seq![]) + seq![StepView::DelayMs(200)] + frame_steps(CMD_APPLY, seq![])
        + seq![StepView::DelayMs(200)] + frame_steps(CMD_RESTART, seq![]) + seq![
        StepView::DelayMs(500),
        StepView::SetLine(ControlLine::Cfg, true),
    ]
}

/// The frames that carry the settings; the target endpoint only for client modes.
pub open spec fn settings_steps(config: NetworkConfig) -> Seq<StepView> {
    frame_steps(CMD_MODE, seq![mode_code(config.mode)]) + frame_steps(
        CMD_LOCAL_IP,
        config.local_ip@,
    ) + frame_steps(CMD_SUBNET_MASK, config.subnet_mask@) + frame_steps(
        CMD_GATEWAY,
        config.gateway@,
    ) + frame_steps(CMD_LOCAL_PORT, le16(config.local_port)) + (if is_client(config.mode) {
        frame_steps(CMD_TARGET_IP, config.target_ip@) + frame_steps(
            CMD_TARGET_PORT,
            le16(config.target_port),
        )
    } else {
        seq![]
    }) + frame_steps(CMD_UART1_BAUD, le32(config.transport_baud))
}

/// The whole configuration sequence.
pub open spec fn config_script(config: NetworkConfig) -> Seq<StepView> {
    enter_config_steps() + settings_steps(config) + exit_config_steps()
}

/// The step is a frame of at most seven bytes that starts with the prefix.
pub open spec fn is_frame_step(step: StepView) -> bool {
    match step {
        StepView::Send(bytes) => bytes.len() >= 3 && bytes.len() <= 7 && bytes[0] == FRAME_PREFIX_0
            && bytes[1] == FRAME_PREFIX_1,
        _ => true,
    }
}

/// Every frame of the configuration sequence is well formed, the bridge is
/// never put back into reset, and the sequence ends with `CFG` high, which
/// returns the bridge to normal operation.
pub proof fn law_config_script_shape(config: NetworkConfig)
    ensures
        forall|i: int|
            0 <= i < config_script(config).len() ==> #[trigger] is_frame_step(
                config_script(config)[i],
            ) && config_script(config)[i] != StepView::SetLine(ControlLine::Reset, false),
        config_script(config).last() == StepView::SetLine(ControlLine::Cfg, true),
{
    let s = config_script(config);
    assert forall|i: int| 0 <= i < s.len() implies #[trigger] is_frame_step(s[i]) && s[i]
        != StepView::SetLine(ControlLine::Reset, false) by {
        let enter = enter_config_steps();
        let settings = settings_steps(config);
        let exit = exit_config_steps();
        assert(s == enter + settings + exit);
    }
}

/// The step sends a frame with command byte `command`.
pub open spec fn sends_command(step: StepView, command: u8) -> bool {
    match step {
        StepView::Send(bytes) => bytes.len() >= 3 && bytes[2] == command,
        _ => false,
    }
}

/// Low byte first, by arithmetic.
proof fn lemma_le_bytes(v: u16, w: u32)
    ensures
        le16(v) == seq![(v % 256) as u8, (v / 256) as u8],
        le32(w) == seq![
            (w % 256) as u8,
            (w / 256 % 256) as u8,
            (w / 65536 % 256) as u8,
            (w / 16777216) as u8,
        ],
{
    assert((v & 0xff) as u8 == (v % 256) as u8 && (v >> 8) as u8 == (v / 256) as u8)
        by (bit_vector);
    assert((w & 0xff) as u8 == (w % 256) as u8 && ((w >> 8) & 0xff) as u8 == (w / 256 % 256) as u8
        && ((w >> 16) & 0xff) as u8 == (w / 65536 % 256) as u8 && (w >> 24) as u8 == (w
        / 16777216) as u8) by (bit_vector);
    assert(le16(v) =~= seq![(v % 256) as u8, (v / 256) as u8]);
    assert(le32(w) =~= seq![
        (w % 256) as u8,
        (w / 256 % 256) as u8,
        (w / 65536 % 256) as u8,
        (w / 16777216) as u8,
    ]);
}

/// The settings frames of the configuration sequence carry the settings
/// byte for byte, in this order: mode (0 TCP server, 1 TCP client, 2 UDP
/// server, 3 UDP client), local IP, subnet mask, gateway, local port, then,
/// for the two client modes only, the target IP and the target port, and
/// last the transport baud rate; ports and baud rate go low byte first. The
/// server modes send no target frame at all.
pub proof fn law_config_frames_carry_the_settings(config: NetworkConfig)
    ensures
        ({
            let s = config_script(config);
            let client = config.mode == NetworkMode::TcpClient || config.mode
                == NetworkMode::UdpClient;
            let code: u8 = match config.mode {
                NetworkMode::TcpServer => 0,
                NetworkMode::TcpClient => 1,
                NetworkMode::UdpServer => 2,
                NetworkMode::UdpClient => 3,
            };
            let lp = config.local_port;
            let tp = config.target_port;
            let b = config.transport_baud;
            let baud_at: int = if client {
                25
            } else {
                19
            };
            &&& s.len() == if client {
                40int
            } else {
                34int
            }
            &&& s[4] == StepView::Send(seq![0x57u8, 0xABu8, 0x10u8, code])
            &&& s[7] == StepView::Send(seq![0x57u8, 0xABu8, 0x11u8] + config.local_ip@)
            &&& s[10] == StepView::Send(seq![0x57u8, 0xABu8, 0x12u8] + config.subnet_mask@)
            &&& s[13] == StepView::Send(seq![0x57u8, 0xABu8, 0x13u8] + config.gateway@)
            &&& s[16] == StepView::Send(
                seq![0x57u8, 0xABu8, 0x14u8, (lp % 256) as u8, (lp / 256) as u8],
            )
            &&& client ==> s[19] == StepView::Send(
                seq![0x57u8, 0xABu8, 0x15u8] + config.target_ip@,
            )
            &&& client ==> s[22] == StepView::Send(
                seq![0x57u8, 0xABu8, 0x16u8, (tp % 256) as u8, (tp / 256) as u8],
            )
            &&& s[baud_at] == StepView::Send(
                seq![
                    0x57u8,
                    0xABu8,
                    0x21u8,
                    (b % 256) as u8,
                    (b / 256 % 256) as u8,
                    (b / 65536 % 256) as u8,
                    (b / 16777216) as u8,
                ],
            )
            &&& !client ==> forall|k: int|
                0 <= k < s.len() ==> !sends_command(#[trigger] s[k], 0x15u8) && !sends_command(
                    s[k],
                    0x16u8,
                )
        }),
{
    lemma_le_bytes(config.local_port, config.transport_baud);
    lemma_le_bytes(config.target_port, config.transport_baud);
    let s = config_script(config);
    let enter = enter_config_steps();
    let settings = settings_steps(config);
    let exit = exit_config_steps();
    assert(s == enter + settings + exit);
    let common = frame_steps(CMD_MODE, seq![mode_code(config.mode)]) + frame_steps(
        CMD_LOCAL_IP,
        config.local_ip@,
    ) + frame_steps(CMD_SUBNET_MASK, config.subnet_mask@) + frame_steps(
        CMD_GATEWAY,
        config.gateway@,
    ) + frame_steps(CMD_LOCAL_PORT, le16(config.local_port));
    assert(common.len() == 15);
    assert(s[4] == common[1]);
    assert(s[7] == common[4]);
    assert(s[10] == common[7]);
    assert(s[13] == common[10]);
    assert(s[16] == common[13]);
    assert(frame(CMD_MODE, seq![mode_code(config.mode)]) =~= seq![0x57u8, 0xABu8, 0x10u8, mode_code(config.mode)]);
    assert(frame(CMD_LOCAL_PORT, le16(config.local_port)) =~= seq![
        0x57u8,
        0xABu8,
        0x14u8,
        (config.local_port % 256) as u8,
        (config.local_port / 256) as u8,
    ]);
    assert(frame(CMD_UART1_BAUD, le32(config.transport_baud)) =~= seq![
        0x57u8,
        0xABu8,
        0x21u8,
        (config.transport_baud % 256) as u8,
        (config.transport_baud / 256 % 256) as u8,
        (config.transport_baud / 65536 % 256) as u8,
        (config.transport_baud / 16777216) as u8,
    ]);
    if is_client(config.mode) {
        let target = frame_steps(CMD_TARGET_IP, config.target_ip@) + frame_steps(
            CMD_TARGET_PORT,
            le16(config.target_port),
        );
        assert(settings == common + target + frame_steps(CMD_UART1_BAUD, le32(config.transport_baud)));
        assert(s[19] == target[1]);
        assert(s[22] == target[4]);
        assert(s[25] == settings[22]);
        assert(frame(CMD_TARGET_PORT, le16(config.target_port)) =~= seq![
            0x57u8,
            0xABu8,
            0x16u8,
            (config.target_port % 256) as u8,
            (config.target_port / 256) as u8,
        ]);
    } else {
        assert(settings == common + Seq::<StepView>::empty() + frame_steps(
            CMD_UART1_BAUD,
            le32(config.transport_baud),
        ));
        assert(s[19] == settings[16]);
        assert forall|k: int|
            0 <= k < s.len() implies !sends_command(#[trigger] s[k], 0x15u8) && !sends_command(
                s[k],
                0x16u8,
            ) by {
            if k >= 3 && k < 3 + settings.len() {
                assert(s[k] == settings[k - 3]);
            }
        }
    }
}

/// The timing of the configuration sequence: out of reset with `CFG` low and
/// half a second to settle, a 10 ms pause on each side of every frame, then
/// save, apply and restart, 200 ms apart, half a second more, and `CFG` high.
pub proof fn law_config_script_timing(config: NetworkConfig)
    ensures
        ({
            let s = config_script(config);
            let t = s.len() as int;
            &&& s[0] == StepView::SetLine(ControlLine::Reset, true)
            &&& s[1] == StepView::SetLine(ControlLine::Cfg, false)
            &&& s[2] == StepView::DelayMs(500)
            &&& forall|i: int|
                0 <= i < t && (#[trigger] s[i] is Send) ==> 0 < i < t - 1 && s[i - 1]
                    == StepView::DelayMs(10) && s[i + 1] == StepView::DelayMs(10)
            &&& s[t - 12] == StepView::Send(seq![0x57u8, 0xABu8, 0x0Du8])
            &&& s[t - 10] == StepView::DelayMs(200)
            &&& s[t - 8] == StepView::Send(seq![0x57u8, 0xABu8, 0x0Eu8])
            &&& s[t - 6] == StepView::DelayMs(200)
            &&& s[t - 4] == StepView::Send(seq![0x57u8, 0xABu8, 0x5Eu8])
            &&& s[t - 2] == StepView::DelayMs(500)
            &&& s[t - 1] == StepView::SetLine(ControlLine::Cfg, true)
        }),
{
    let s = config_script(config);
    let enter = enter_config_steps();
    let settings = settings_steps(config);
    let exit = exit_config_steps();
    assert(s == enter + settings + exit);
    assert(exit.len() == 13);
    let t = s.len() as int;
    assert(frame(CMD_SAVE, seq![]) =~= seq![0x57u8, 0xABu8, 0x0Du8]);
    assert(frame(CMD_APPLY, seq![]) =~= seq![0x57u8, 0xABu8, 0x0Eu8]);
    assert(frame(CMD_RESTART, seq![]) =~= seq![0x57u8, 0xABu8, 0x5Eu8]);
    assert(s[t - 12] == exit[1]);
    assert(s[t - 8] == exit[5]);
    assert(s[t - 4] == exit[9]);
    // Each frame is sent from the middle of its three steps.
    assert(settings.len() % 3 == 0);
    assert forall|i: int|
        0 <= i < t && (#[trigger] s[i] is Send) implies 0 < i < t - 1 && s[i - 1]
            == StepView::DelayMs(10) && s[i + 1] == StepView::DelayMs(10) by {
        if i < 3 {
        } else if i < 3 + settings.len() {
            lemma_settings_sends(config, i - 3);
            assert(s[i] == settings[i - 3]);
            assert(s[i - 1] == settings[i - 4]);
            assert(s[i + 1] == settings[i - 2]);
        } else {
            let j = i - 3 - settings.len();
            assert(s[i] == exit[j]);
            assert(j == 1 || j == 5 || j == 9);
            assert(s[i - 1] == exit[j - 1]);
            assert(s[i + 1] == exit[j + 1]);
        }
    }
}

/// In the settings steps, every frame is the middle of a pause, frame, pause triple.
proof fn lemma_settings_sends(config: NetworkConfig, j: int)
    requires
        0 <= j < settings_steps(config).len(),
        settings_steps(config)[j] is Send,
    ensures
        j % 3 == 1,
        settings_steps(config)[j - 1] == StepView::DelayMs(10),
        settings_steps(config)[j + 1] == StepView::DelayMs(10),
{
    let st = settings_steps(config);
    assert forall|k: int| 0 <= k < st.len() implies (#[trigger] st[k] is Send) == (k % 3 == 1)
        && (k % 3 != 1 ==> st[k] == StepView::DelayMs(10)) by {
        let common = frame_steps(CMD_MODE, seq![mode_code(config.mode)]) + frame_steps(
            CMD_LOCAL_IP,
            config.local_ip@,
        ) + frame_steps(CMD_SUBNET_MASK, config.subnet_mask@) + frame_steps(
            CMD_GATEWAY,
            config.gateway@,
        ) + frame_steps(CMD_LOCAL_PORT, le16(config.local_port));
        if is_client(config.mode) {
            let target = frame_steps(CMD_TARGET_IP, config.target_ip@) + frame_steps(
                CMD_TARGET_PORT,
                le16(config.target_port),
            );
            assert(st == common + target + frame_steps(CMD_UART1_BAUD, le32(config.transport_baud)));
        } else {
            assert(st == common + Seq::<StepView>::empty() + frame_steps(
                CMD_UART1_BAUD,
                le32(config.transport_baud),
            ));
        }
    }
}

/// The bridge, with the two lines that control it.
pub struct Ch9120<CfgPin, ResetPin> {
    cfg_pin: CfgPin,
    reset_pin: ResetPin,
}

impl<CfgPin, ResetPin> Ch9120<CfgPin, ResetPin> {
    /// Takes the control lines; the steps that raise both (normal mode, out of reset).
    pub fn new(cfg_pin: CfgPin, reset_pin: ResetPin) -> (r: (Self, Vec<ConfigStep>))
        ensures
            r.0.cfg_line() == cfg_pin,
            r.0.reset_line() == reset_pin,
            steps_view(r.1@) == seq![
                StepView::SetLine(ControlLine::Cfg, true),
                StepView::SetLine(ControlLine::Reset, true),
            ],
    {
        let mut steps: Vec<ConfigStep> = Vec::new();
        steps.push(ConfigStep::SetLine(ControlLine::Cfg, true));
        steps.push(ConfigStep::SetLine(ControlLine::Reset, true));
        assert(steps_view(steps@) =~= seq![
            StepView::SetLine(ControlLine::Cfg, true),
            StepView::SetLine(ControlLine::Reset, true),
        ]);
        (Ch9120 { cfg_pin, reset_pin }, steps)
    }

    /// The `CFG` line.
    pub closed spec fn cfg_line(self) -> CfgPin {
        self.cfg_pin
    }

    /// The `RST` line.
    pub closed spec fn reset_line(self) -> ResetPin {
        self.reset_pin
    }

    /// The two control lines, for carrying out `SetLine` steps.
    pub fn lines(&mut self) -> (r: (&mut CfgPin, &mut ResetPin))
        ensures
            *r.0 == old(self).cfg_line(),
            *r.1 == old(self).reset_line(),
            final(self).cfg_line() == *final(r.0),
            final(self).reset_line() == *final(r.1),
    {
        (&mut self.cfg_pin, &mut self.reset_pin)
    }

    /// The steps that write `config` to the bridge and restart it with it.
    /// Afterwards the UART is to be switched to `config.transport_baud`.
    pub fn configure(&mut self, config: NetworkConfig) -> (r: Vec<ConfigStep>)
        ensures
            steps_view(r@) == config_script(config),
            *final(self) == *old(self),
    {
        let mut steps: Vec<ConfigStep> = Vec::new();
        Self::enter_config(&mut steps);
        Self::write_u8(&mut steps, CMD_MODE, config.mode.as_u8());
        Self::write_bytes(&mut steps, CMD_LOCAL_IP, &config.local_ip);
        Self::write_bytes(&mut steps, CMD_SUBNET_MASK, &config.subnet_mask);
        Self::write_bytes(&mut steps, CMD_GATEWAY, &config.gateway);
        Self::write_u16(&mut steps, CMD_LOCAL_PORT, config.local_port);
        if config.mode.uses_target_endpoint() {
            Self::write_bytes(&mut steps, CMD_TARGET_IP, &config.target_ip);
            Self::write_u16(&mut steps, CMD_TARGET_PORT, config.target_port);
        }
        Self::write_u32(&mut steps, CMD_UART1_BAUD, config.transport_baud);
        Self::exit_config(&mut steps);
        assert(steps_view(steps@) =~= config_script(config));
        steps
    }

    fn enter_config(steps: &mut Vec<ConfigStep>)
        ensures
            steps_view(final(steps)@) == steps_view(old(steps)@) + enter_config_steps(),
    {
        steps.push(ConfigStep::SetLine(ControlLine::Reset, true));
        steps.push(ConfigStep::SetLine(ControlLine::Cfg, false));
        steps.push(ConfigStep::DelayMs(500));
        assert(steps_view(steps@) =~= steps_view(old(steps)@) + enter_config_steps());
    }

    fn exit_config(steps: &mut Vec<ConfigStep>)
        ensures
            steps_view(final(steps)@) == steps_view(old(steps)@) + exit_config_steps(),
    {
        let ghost s0 = steps_view(steps@);
        Self::send_command_only(steps, CMD_SAVE);
        steps.push(ConfigStep::DelayMs(200));
        let ghost s1 = steps_view(steps@);
        assert(s1 =~= s0 + frame_steps(CMD_SAVE, seq![]) + seq![StepView::DelayMs(200)]);
        Self::send_command_only(steps, CMD_APPLY);
        steps.push(ConfigStep::DelayMs(200));
        let ghost s2 = steps_view(steps@);
        assert(s2 =~= s1 + frame_steps(CMD_APPLY, seq![]) + seq![StepView::DelayMs(200)]);
        Self::send_command_only(steps, CMD_RESTART);
        steps.push(ConfigStep::DelayMs(500));
        steps.push(ConfigStep::SetLine(ControlLine::Cfg, true));
        let ghost s3 = steps_view(steps@);
        assert(s3 =~= s2 + frame_steps(CMD_RESTART, seq![]) + seq![
            StepView::DelayMs(500),
            StepView::SetLine(ControlLine::Cfg, true),
        ]);
        assert(steps_view(steps@) =~= steps_view(old(steps)@) + exit_config_steps());
    }

    fn write_u8(steps: &mut Vec<ConfigStep>, command: u8, value: u8)
        ensures
            steps_view(final(steps)@) == steps_view(old(steps)@) + frame_steps(command, seq![value]),
    {
        let payload: [u8; 1] = [value];
        Self::send_frame(steps, command, payload.as_slice());
        assert(payload@ =~= seq![value]);
    }

    fn write_u16(steps: &mut Vec<ConfigStep>, command: u8, value: u16)
        ensures
            steps_view(final(steps)@) == steps_view(old(steps)@) + frame_steps(command, le16(value)),
    {
        let payload: [u8; 2] = [(value & 0xff) as u8, (value >> 8) as u8];
        Self::send_frame(steps, command, payload.as_slice());
        assert(payload@ =~= le16(value));
    }

    fn write_u32(steps: &mut Vec<ConfigStep>, command: u8, value: u32)
        ensures
            steps_view(final(steps)@) == steps_view(old(steps)@) + frame_steps(command, le32(value)),
    {
        let payload: [u8; 4] = [
            (value & 0xff) as u8,
            ((value >> 8) & 0xff) as u8,
            ((value >> 16) & 0xff) as u8,
            (value >> 24) as u8,
        ];
        Self::send_frame(steps, command, payload.as_slice());
        assert(payload@ =~= le32(value));
    }

    fn write_bytes(steps: &mut Vec<ConfigStep>, command: u8, payload: &[u8; 4])
        ensures
            steps_view(final(steps)@) == steps_view(old(steps)@) + frame_steps(command, payload@),
    {
        Self::send_frame(steps, command, payload.as_slice());
    }

    fn send_command_only(steps: &mut Vec<ConfigStep>, command: u8)
        ensures
            steps_view(final(steps)@) == steps_view(old(steps)@) + frame_steps(command, seq![]),
    {
        let payload: [u8; 0] = [];
        Self::send_frame(steps, command, payload.as_slice());
        assert(payload@ =~= seq![]);
    }

    /// Appends the steps that send one frame.
    fn send_frame(steps: &mut Vec<ConfigStep>, command: u8, payload: &[u8])
        requires
            payload@.len() <= 4,
        ensures
            steps_view(final(steps)@) == steps_view(old(steps)@) + frame_steps(command, payload@),
    {
        let frame = build_frame(command, payload);
        steps.push(ConfigStep::DelayMs(10));
        steps.push(ConfigStep::Send(frame));
        steps.push(ConfigStep::DelayMs(10));
        assert(steps_view(steps@) =~= steps_view(old(steps)@) + frame_steps(command, payload@));
    }
}

/// The bytes of one configuration frame.
pub fn build_frame(command: u8, payload: &[u8]) -> (r: Vec<u8>)
    requires
        payload@.len() <= 4,
    ensures
        r@ == frame(command, payload@),
        r@.len() <= 7,
{
    let mut frame: Vec<u8> = Vec::new();
    frame.push(FRAME_PREFIX_0);
    frame.push(FRAME_PREFIX_1);
    frame.push(command);
    let mut i: usize = 0;
    while i < payload.len()
        invariant
            i <= payload@.len(),
            frame@ == seq![FRAME_PREFIX_0, FRAME_PREFIX_1, command] + payload@.take(i as int),
        decreases payload@.len() - i,
    {
        frame.push(payload[i]);
        i = i + 1;
        assert(frame@ =~= seq![FRAME_PREFIX_0, FRAME_PREFIX_1, command] + payload@.take(i as int));
    }
    assert(payload@.take(i as int) =~= payload@);
    frame
}

} // verus!
