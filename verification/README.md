# kite

The video server, the vehicle commands and the start-up decisions of Kite Ground Control, as a library whose
behaviour is stated in contracts and proved with [Verus](https://github.com/verus-lang/verus).

The library decides and does no I/O of its own. Where reading, writing or waiting comes between two
decisions, it is a state machine: it says what to do next, and takes in what came of it.

| Module | What it is about |
| --- | --- |
| `multipart`, `muxer` | cutting a stream of pictures into parts, and what ffmpeg's muxer writes |
| `feed`, `client`, `audience` | one source for many sinks, none of which holds up another |
| `request` | what a client asks for and is answered |
| `source`, `gst_pipeline` | what is captured, and the command line that captures it |
| `server` | how the server starts, fails and stops |
| `mjpeg_streams` | the streams that the server is started on |
| `go2rtc`, `json`, `http` | the stream engine |
| `control` | commands to a MAVLink vehicle |
| `startup` | what the desktop program decides while it starts |
| `text`, `encoding` | text and bytes |

Functions named `law_…` are proofs of what holds of the library as a whole.

`app/` is the program around the library: sockets, threads, HTTP, MAVLink and windows. `tests/` runs the
library.
