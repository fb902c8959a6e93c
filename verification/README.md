# ping

An ICMP echo client whose logic is verified with Verus.

    sudo ping "1.1.1.1,3,1000"

sends three pings to 1.1.1.1, one every 1000 milliseconds, and prints a line with the round-trip
time of each reply. A ping that gets no reply within five seconds is given up.
Spaces around the parts of the parameter do not matter: `1.1.1.1, 3, 1000` is the same.

- `src/` is the library, every item of it verified.
  - `config` reads the parameter: an IPv4 address, a ping count from 1 to 10 and an interval of at
    most 1000 milliseconds. `address`, `decimal` and `text` are what it is made of.
  - `packet` writes echo requests and reads the sequence number of a reply; `checksum` is the
    Internet checksum.
  - `session` keeps the books: which pings wait for a reply, and how many are settled.
  - `operation` says what is to be done about each event; `report` words the lines that are
    printed.
- `app/` is the program around it: the raw socket, the clock and the event loop.
- `tests/` runs the library on concrete values.
