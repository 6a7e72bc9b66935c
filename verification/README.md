# wavekat-sip

SIP signalling and RTP media building blocks for softphones, voice bots and recording bridges. It
registers accounts, places and answers calls, negotiates media with SDP, keeps sessions alive, holds
and transfers calls, and sends and reads DTMF. Audio devices, codecs and call orchestration are left
to the application.

## Layout

- `src/` is the library. Its functions carry contracts that Verus proves. It opens no socket and
  reads no clock: what alternates with the outside world is a state machine, a function from state
  and event to next state and action.
- `app/` runs the library over tokio: sockets, TLS handshakes, DNS, timers, and the serde forms of
  the configuration.
- `tests/` runs the library on concrete messages, packets and timers.

## What is proved

The contracts say what each function returns for every input. Beside them stand laws that span
several functions, as public proof functions or in the `ensures` of the function they are about.
Among them:

- What is written reads back: messages, `Via` and address headers, sequence numbers, SDP bodies,
  `Session-Expires`, RTP headers, DTMF events, IP addresses.
- A DTMF burst is decoded as one press and one release, and chained bursts as separate presses.
  Whatever packets of one source arrive in whatever order, presses move forward in time and each has
  at most one release.
- An answer lists only payload types of the offer.
- No two branches, tags or client nonces of a process are the same.
- Requests in a dialog go through the route set, count up, and find the dialog of the peer.
- Transactions end for good, deliver a refusal once, and stay within the retransmission caps.
- However a stream is cut into reads, the same messages and the same error come out, as long as its
  header blocks are within the limit.
- Both sides of a call agree on the session interval and on who refreshes.
- SRV records are tried by priority, less preferred ones do not change the order of the others, and
  any of them rules out the fallback.

## What is trusted

`rsip` takes messages, structured headers and URIs apart and computes digests, `sha2` computes
fingerprints, and a few functions of std decode and quote text and give random numbers. Each such
call stands in one small function marked `external_body`, whose comment says what is claimed of it.
