# bloom

The desktop backend of Bloom, a dock, notch and on-screen-display shell, as a
verified library with a thin service around it.

- `src/` is the library, verified with Verus: desktop entries and the
  application inventory, window grouping for the taskbar, icon theme lookup,
  MPRIS media ranking and transport, battery, Wi-Fi, Bluetooth and backlight
  replies, audio controller output, pointer edges and click-through, overlap of
  the dock and notch, window thumbnails, custom icons, settings, and the
  decisions of the Windows backend (accent colour, foreground watcher, window
  listing, start-menu scan).
- `app/` is the Linux (Cinnamon, X11) service: it talks to the X server,
  D-Bus, sysinfo and the audio tools, hands what it reads to the library, and
  speaks JSON lines with the interface.
- `tests/` runs the library on concrete values.
