# itsalive

`itsalive` brings up HDMI and the Linux frame buffer on a MiSTer that runs
nothing but its boot loader: it programs the video PLL, the timings and the
ADV7513 transmitter, points the fabric's frame reader at `/dev/fb0`, and puts
text or a raw image on the screen.

The library under `src/` is written in Verus. Every decision of the tool is in
it, with a contract that is proved:

| Module | What it holds |
|---|---|
| `error` | the ways to fail, and their exit codes |
| `mailbox` | the handshake with the fabric, as a trace of register accesses |
| `support` | a command whose payload the core has to ask for, against one that it has not |
| `rounding` | binary64 arithmetic on clock frequencies, in integers |
| `video` | modes, the PLL solver, the words of the video burst |
| `adv7513` | the register tables of the transmitter |
| `fb` | the frame buffer's geometry, its burst, the kernel's knob, images |
| `hw` | the traits that devices are reached through, bus discovery, errno rules |
| `scan` | a probe that keeps account of the buses it was asked for |
| `journal` | the steps that were made on the devices, in order |
| `sequence` | what each command does to the devices, and in what order |
| `narration` | the log, one line for each step |
| `probe` | the report, in lines and as JSON |
| `say` | text for the console |
| `cli` | the grammar of the command line |
| `text` | decimal and hexadecimal numbers, fields |

The public proof functions are the laws of the library: that a command always
releases the bus, that the fabric receives exactly what was sent, that a mode
line is read back as it was written, and so on.

The program under `app/` opens the devices and prints; `tests/` runs the
library.

```
itsalive probe [--json]              report what is there, exit with the first failure
itsalive hdmi [--mode MODE] [--off]  configure the ADV7513 and the video PLL
itsalive fb enable [--mode MODE]     point the fabric's frame reader at /dev/fb0
itsalive fb disable                  hand the display back to the core
itsalive say [--clear] TEXT...       write TEXT to /dev/tty1 for fbcon to paint
itsalive image [--size WxH] [--clear] PATH
                                     blit a raw BGRX8888 image onto /dev/fb0
itsalive up [--mode MODE]            hdmi, then fb enable: the installer's one call
```
