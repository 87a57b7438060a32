# any-kvm-agent

The device agent of Any-KVM: it captures the screen and the sound of a machine, sends them to a
browser over WebRTC, and injects the keys and the mouse that come back.

The rules of the agent are a Verus library in `src/`: every function there is verified against its
contract, but for the wrappers around outside crates, whose contracts are believed. The program
around it, in `app/`, owns the sockets, the device nodes and the timers, and moves datagrams and
the time in and out of the WebRTC engine.

| Module | What it holds |
|--------|---------------|
| `hid` | control frames, USB gadget reports, CH9329 packets |
| `video` | choice of the encoder, packed to planar pictures, the software encoder |
| `h264` | the NAL units of a byte stream |
| `audio` | what the sound device and the encoder are asked for |
| `engine` | the WebRTC engine: offer, answer, candidates, media, events |
| `answer` | which answers the engine can be handed |
| `session` | a session with a browser: clocks, counters, routes, permissions |
| `stun`, `turn` | the STUN and TURN clients |
| `md5`, `sha1` | the digests that authenticate TURN requests |
| `signal_client`, `json` | what is said to the signalling server and what is heard |
| `supervisor` | when media flows, and when a new session is tried |
| `net`, `text`, `wire` | addresses, text, byte order |
| `config` | the configuration |

Proof functions named `law_..` state what holds of several functions together.

The wrappers are the functions marked `external_body`, and they are not verified. What the proofs
rest on, besides Verus and its library, are their contracts: each calls one outside crate (`str0m`,
`openh264`, `serde_json`, `urlencoding`) or the clock, and says above its header what is taken for
granted of that call.
