# webrtc_lib

The protocol logic of a WebRTC stack, verified with Verus: RTCP packets
(parsing, writing, splitting compound packets and routing them to streams),
SCTP data channel messages and notifications, the data channel state
machine, RTP sequence numbers, resend requests and the packet history,
receiver statistics, REMB bandwidth announcements, DTLS setup and
signalling negotiation, session descriptions as plain values (creating the
local one, applying a remote one to media lines and transports), media
lines with their codecs and header extensions, and SRTP key material.

- `src/` is the verified library. Time, I/O and randomness stay outside it:
  functions that depend on a clock take the current time as an argument,
  and state machines hand back what their driver is to do.
- `tests/` exercises the library on concrete values.
- `app/` drives the state machines with the system clock, an SCTP
  association, the ICE stream of a transport and the packets of a media
  receiver, and computes the floating point averages.
