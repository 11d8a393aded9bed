# bevy_v4l2

Low-latency V4L2 webcam capture for Bevy, with the decisions verified in Verus.

A camera is opened with kernel buffers that are exported as DMA-BUFs. The newest frame always
wins, older ones go straight back to the driver, and the CPU cache is written back so that a GPU
that does not snoop sees what the driver wrote. Raw frames are copied on the GPU from the imported
buffer, with no copy on the CPU; MJPEG frames are decoded on a thread.

`src/` is the library. It holds no device, thread, channel or GPU handle: each function takes what
these answered as plain values, and says what to do next.

| module | what it decides |
| --- | --- |
| `select`, `request` | which of a camera's modes to use |
| `capture` | the steps of opening a device, the poll loop, the modes offered, the cache lines of a buffer, the brightness of a frame |
| `controls` | which nodes are cameras, which settings they have, what is written for a value |
| `dmabuf` | the Vulkan extensions, the steps of an import and its clean-up, the barriers |
| `mjpeg` | which frame is decoded, and where its buffers go |
| `jpeg` | which images the JPEG decoder can be given |
| `plugin` | what a webcam entity asks for, how its frames reach the GPU, its statistics |
| `calibration` | lens and rolling-shutter calibration with a printed chessboard |
| `single` | `f32` arithmetic on bit patterns, rounded as IEEE 754 says |
| `duration`, `double`, `fourcc`, `text` | the values that the others share |

`app/` is the Bevy, V4L2, Vulkan and threading code around it. `tests/` runs the library.
