//! Inbound commands from the payload bus and the OTA wire-format parsing.

use vstd::prelude::*;

use crate::bytes;

verus! {

/// First byte of a packet that announces a firmware update.
pub const OTA_CMD_ANNOUNCE: u8 = 0x00;

/// First byte of a packet that starts a firmware transfer.
pub const OTA_CMD_BEGIN: u8 = 0x01;

/// First byte of a packet that carries firmware bytes.
pub const OTA_CMD_DATA: u8 = 0x02;

/// First byte of a packet that ends a firmware transfer.
pub const OTA_CMD_END: u8 = 0x03;

/// A command received from the payload board, for the application to execute.
#[derive(Debug)]
pub enum Command {
    /// Capture and transmit one image per camera.
    Sstv,
    /// A firmware update was announced with the given chunk size.
    UpdateAnnounced(u16),
    /// A firmware update session starts, expecting this many bytes in total.
    UpdateBegin(u32),
    /// One block of firmware bytes starting at `offset`.
    UpdateData {
        /// Where in the image the block starts.
        offset: u32,
        /// The bytes, possibly with relay overhead behind them.
        data: Vec<u8>,
    },
    /// The sender considers the firmware transfer complete.
    UpdateEnd,
}

/// What a command says, as a plain value.
pub enum Request {
    /// See [`Command::Sstv`].
    Sstv,
    /// See [`Command::UpdateAnnounced`].
    UpdateAnnounced(u16),
    /// See [`Command::UpdateBegin`].
    UpdateBegin(u32),
    /// See [`Command::UpdateData`].
    UpdateData(u32, Seq<u8>),
    /// See [`Command::UpdateEnd`].
    UpdateEnd,
}

impl View for Command {
    type V = Request;

    open spec fn view(&self) -> Request {
        match *self {
            Command::Sstv => Request::Sstv,
            Command::UpdateAnnounced(chunk_size) => Request::UpdateAnnounced(chunk_size),
            Command::UpdateBegin(total) => Request::UpdateBegin(total),
            Command::UpdateData { offset, data } => Request::UpdateData(offset, data@),
            Command::UpdateEnd => Request::UpdateEnd,
        }
    }
}

/// The command in a packet for the OTA port, if it holds one. The first byte
/// selects the command; numbers behind it are little-endian. An announcement
/// too short to name a chunk size announces none.
pub open spec fn ota_request(payload: Seq<u8>) -> Option<Request> {
    if payload.len() == 0 {
        None
    } else if payload[0] == OTA_CMD_ANNOUNCE {
        Some(
            Request::UpdateAnnounced(
                if payload.len() < 3 {
                    0
                } else {
                    bytes::little_endian(payload.subrange(1, 3)) as u16
                },
            ),
        )
    } else if payload[0] == OTA_CMD_BEGIN && payload.len() >= 5 {
        Some(Request::UpdateBegin(bytes::little_endian(payload.subrange(1, 5)) as u32))
    } else if payload[0] == OTA_CMD_DATA && payload.len() > 5 {
        Some(
            Request::UpdateData(
                bytes::little_endian(payload.subrange(1, 5)) as u32,
                payload.skip(5),
            ),
        )
    } else if payload[0] == OTA_CMD_END {
        Some(Request::UpdateEnd)
    } else {
        None
    }
}

/// Parse one packet from the OTA socket into a [`Command`], or `None` if it is
/// malformed.
pub fn parse_ota_packet(payload: &[u8]) -> (command: Option<Command>)
    ensures
        command is Some <==> ota_request(payload@) is Some,
        command matches Some(c) ==> ota_request(payload@) == Some(c@),
{
    if payload.len() == 0 {
        return None;
    }
    let selector = payload[0];
    if selector == OTA_CMD_ANNOUNCE {
        let chunk_size: u16 = if payload.len() >= 3 {
            bytes::read_u16_le(payload, 1)
        } else {
            0
        };
        Some(Command::UpdateAnnounced(chunk_size))
    } else if selector == OTA_CMD_BEGIN {
        if payload.len() >= 5 {
            Some(Command::UpdateBegin(bytes::read_u32_le(payload, 1)))
        } else {
            None
        }
    } else if selector == OTA_CMD_DATA {
        if payload.len() > 5 {
            let offset = bytes::read_u32_le(payload, 1);
            let data = vstd::slice::slice_to_vec(
                vstd::slice::slice_subrange(payload, 5, payload.len()),
            );
            assert(data@ == payload@.skip(5));
            Some(Command::UpdateData { offset, data })
        } else {
            None
        }
    } else if selector == OTA_CMD_END {
        Some(Command::UpdateEnd)
    } else {
        None
    }
}

/// The packet that carries a request to the OTA port, for the requests that
/// travel there.
pub open spec fn ota_packet(request: Request) -> Seq<u8> {
    match request {
        Request::UpdateAnnounced(chunk_size) => seq![OTA_CMD_ANNOUNCE]
            + bytes::little_endian_digits(chunk_size as nat, 2),
        Request::UpdateBegin(total) => seq![OTA_CMD_BEGIN] + bytes::little_endian_digits(
            total as nat,
            4,
        ),
        Request::UpdateData(offset, data) => seq![OTA_CMD_DATA] + bytes::little_endian_digits(
            offset as nat,
            4,
        ) + data,
        _ => seq![OTA_CMD_END],
    }
}

/// Every request that travels to the OTA port is read back from its packet; a
/// data request must carry at least one byte.
pub proof fn law_ota_packet_round_trip(request: Request)
    requires
        request !is Sstv,
        request matches Request::UpdateData(_, data) ==> data.len() > 0,
    ensures
        ota_request(ota_packet(request)) == Some(request),
{
    reveal_with_fuel(vstd::arithmetic::power::pow, 5);
    let packet = ota_packet(request);
    match request {
        Request::UpdateAnnounced(chunk_size) => {
            bytes::law_little_endian_round_trip(chunk_size as nat, 2);
            assert(packet.subrange(1, 3) == bytes::little_endian_digits(chunk_size as nat, 2));
        },
        Request::UpdateBegin(total) => {
            bytes::law_little_endian_round_trip(total as nat, 4);
            assert(packet.subrange(1, 5) == bytes::little_endian_digits(total as nat, 4));
        },
        Request::UpdateData(offset, data) => {
            bytes::law_little_endian_round_trip(offset as nat, 4);
            assert(packet.subrange(1, 5) == bytes::little_endian_digits(offset as nat, 4));
            assert(packet.skip(5) == data);
        },
        _ => {},
    }
}

/// The first byte of a payload tells what it asks for, and its numbers follow
/// with the least significant byte first. An announcement without a number
/// announces none; the start of an image needs its size, a chunk its offset and
/// at least one byte. Nothing else asks for anything.
pub proof fn law_first_byte_tells_the_request(payload: Seq<u8>)
    ensures
        payload.len() == 0 ==> ota_request(payload) is None,
        payload.len() > 0 ==> {
            let (kind, n) = (payload[0], payload.len());
            &&& ota_request(payload) is None <==> kind > 3 || kind == 1 && n < 5 || kind == 2 && n
                < 6
            &&& kind == 0 && n < 3 ==> ota_request(payload) == Some(Request::UpdateAnnounced(0))
            &&& kind == 0 && n >= 3 ==> ota_request(payload) == Some(
                Request::UpdateAnnounced((payload[1] + 256 * payload[2]) as u16),
            )
            &&& kind == 1 && n >= 5 ==> ota_request(payload) == Some(
                Request::UpdateBegin(
                    (payload[1] + 256 * payload[2] + 65536 * payload[3] + 16777216
                        * payload[4]) as u32,
                ),
            )
            &&& kind == 2 && n >= 6 ==> ota_request(payload) == Some(
                Request::UpdateData(
                    (payload[1] + 256 * payload[2] + 65536 * payload[3] + 16777216
                        * payload[4]) as u32,
                    payload.subrange(5, n as int),
                ),
            )
            &&& kind == 3 ==> ota_request(payload) == Some(Request::UpdateEnd)
        },
{
    bytes::law_little_endian_weights(payload, 1);
    if payload.len() > 5 {
        assert(payload.skip(5) =~= payload.subrange(5, payload.len() as int));
    }
}

/// A command is the request it was made of, number by number.
pub proof fn law_commands_keep_their_numbers(command: Command)
    ensures
        command is Sstv <==> command@ is Sstv,
        command is UpdateEnd <==> command@ is UpdateEnd,
        command matches Command::UpdateAnnounced(size) ==> command@ == Request::UpdateAnnounced(
            size,
        ),
        command matches Command::UpdateBegin(total) ==> command@ == Request::UpdateBegin(total),
        command matches Command::UpdateData { offset, data } ==> command@ == Request::UpdateData(
            offset,
            data@,
        ),
{
}

} // verus!
