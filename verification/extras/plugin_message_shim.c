/* Formats the messages of linker plugins and hands them on as plain strings. */
#include <stdarg.h>
#include <stdio.h>

void wild_handle_plugin_message(int level, const char *message);

void wild_plugin_message_callback(int level, const char *fmt, ...) {
  char buffer[4096];
  va_list args;
  va_start(args, fmt);
  vsnprintf(buffer, sizeof(buffer), fmt, args);
  va_end(args);
  wild_handle_plugin_message(level, buffer);
}
