# paytp-merchant

The merchant side of PayTP, as a library whose behaviour is proved with Verus.

- `src/` is the verified library.
  - `redeem`, `twoleg`, `store`, `attest_endpoint`, `http`: one-shot purchases. A quote
    is redeemed once, after its payment is final, and a payment backs one nonce.
  - `channel`, `carriage`: payment channels. Establishment, metering checkpoints,
    funding, settlement rounds, the merchant's own draws, closing and chaining.
  - `one_decision`, `log`, `framing`, `medium`: the append-only logs that make each
    money decision once, across restarts and replicas.
  - `meed`, `bignat`, `decimal`, `bytes`, `text`, `table`, `keys`, `disposition`,
    `rail`, `measure`: the arithmetic, encodings and tables underneath.
- `tests/` runs the library: the channel plane against a simulated meter, payer and rail.
- `app/` is ordinary Rust around the library: log files, locks, the 402 envelope, and
  the endpoints that join the library to the protocol core and to a rail.

Signatures, hashes, sealed secrets and rail reads reach the library as plain facts about
a message. What has to happen outside (a draw, a release, a change of a meter) leaves it
as a value that says what to do.

The carve, the merchant's net and the watermark targets are computed on naturals of any
size; their digits are handled by `num-bigint`, whose functions are the trusted part of
`bignat`.
