# Wio Terminal SD explorer and text editor

Firmware for the Seeed Studio Wio Terminal that browses FAT16 and FAT32 SD cards, edits
`.txt` files with an on-screen keyboard, and formats cards. Everything that the device
decides is a library verified with Verus; what is left is the board itself.

## Layout

- `src/` is the verified library.
  - The card: `boot`, `geometry`, `format`, `fat_tail` (layouts on disk), `medium` and
    `format_laws` (what formatting leaves behind), `storage`, `blocks` and `stream` (bytes),
    `serial`, `bus`, `driver`, `controller` and `retry` (the card on its bus).
  - Files: `volume` (what is asked of the filesystem layer), `walk`, `files`, `removal`,
    `creation`, `space` (single operations), `session` (steps and their calls), `tree`,
    `moving`, `saving`, `card` (whole operations), `card_laws`, `file_laws`, `moving_laws`,
    `handle_laws` and `listing_laws` (what they promise together, whatever the card replies).
  - What a card holds: `contents` (the card as folders and files, and what each call makes of
    it), `contents_runs`, `contents_laws`, `removal_laws` and `carrying_laws` (what saving,
    deleting and moving leave on it), `reliable`, `reliable_laws`, `reliable_deletes` and
    `reliable_moves` (a card on which nothing fails).
  - Text: `text`, `names`, `editor`, `errors`, `notice`.
  - The device: `input`, `keyboard`, `screens`, `explorer`, `picker`, `handlers`, `naming`,
    `operations`, `editing`, `buttons` (what a press does), `view` and `view_laws` (what is
    shown), `port`, `device`, `mounting` and `console` (card slot, mounting, formatting, what
    each poll does), `wires` and `gauge` (the battery chassis).
- `app/` is the firmware around it: the pins, the clock, the display, embedded-sdmmc as the
  filesystem layer, and the event loop.
- `tests/` runs the library, much of it on FAT images in memory through embedded-sdmmc.

## How the contracts read

The card, the bus, the wires and the filesystem layer are traits whose replies are never
trusted. Every exchange with them is kept in a ghost log, which only the module of the trait
can extend, and a contract relates the stretch that a call appends to its result: what was
asked, in which order, and what each reply led to. So each contract holds for every behaviour
of the hardware, and its success is owed exactly where the replies allow it. Operations on
files are stated over steps (look up, save, copy, delete), and each step stands for a stretch
of calls.

Some promises speak of what a card holds rather than of what it replied: that a failed save
loses nothing, or that a move carries a whole tree. They are stated over runs, the states of
a card between the calls, for a card that looks things up truthfully and delivers what it
stores. It may store wrongly what is written, and any call may fail.
