# voxygen

Verified decision logic of three parts of the game client's interface:

- `trade` and `offer`: the trade window. How each party's offer is sorted
  and laid out, what the accept, decline, close and details buttons answer,
  which event a frame of the window reports, and the amount field that turns
  typed text into a request to change an offered quantity.
- `client_init`: starting the client in the background. A step function
  decides when to attempt a connection, when to wait, and what to report;
  whether an auth server is trusted; what polling the start-up gives.
- `anim`: which shooting pose a large bird takes.
- `numeral` and `text`: decimal numerals (writing and parsing `i32`s as std
  does) and white-space trimming, on which the amount field rests.

`app/` holds the widget, the async start-up and the floating-point pose
around the library.
