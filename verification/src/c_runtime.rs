use vstd::prelude::*;
use crate::code_generator::{raw_text, CodeGenerator};

verus! {

/// The time-travel runtime: event ids, the registry of histories, and the replay machinery.
pub const TIME_TRAVEL_RUNTIME: &'static str = r#"
            // ===== Time-travel runtime =====
            typedef struct {
                size_t* call_path;
                size_t call_path_len;
                size_t local_event;
            } DeloEventId;

            #define DELO_MAX_DEPTH 1024
            static size_t delo_call_stack[DELO_MAX_DEPTH];
            static size_t delo_local_events[DELO_MAX_DEPTH];
            static size_t delo_stack_depth = 0;
            static size_t delo_next_call_id = 1;
            static bool delo_replay_mode = false;
            static DeloEventId delo_resume_event;
            static jmp_buf delo_restart_env;
            static bool delo_init_done = false;

            typedef struct {
                void* history;
                void (*reset_cursor)(void*);
                void (*truncate)(void*);
            } DeloHistoryHandle;
            static DeloHistoryHandle* delo_histories = NULL;
            static size_t delo_histories_len = 0;
            static size_t delo_histories_cap = 0;

            static void delo_register_history(void* h, void (*reset_cursor)(void*), void (*truncate)(void*)) {
                if (delo_histories_len >= delo_histories_cap) {
                    delo_histories_cap = delo_histories_cap == 0 ? 16 : delo_histories_cap * 2;
                    delo_histories = (DeloHistoryHandle*)realloc(delo_histories, sizeof(DeloHistoryHandle) * delo_histories_cap);
                }
                delo_histories[delo_histories_len].history = h;
                delo_histories[delo_histories_len].reset_cursor = reset_cursor;
                delo_histories[delo_histories_len].truncate = truncate;
                delo_histories_len++;
            }

            static void delo_reset_all_cursors(void) {
                for (size_t i = 0; i < delo_histories_len; i++) {
                    delo_histories[i].reset_cursor(delo_histories[i].history);
                }
            }

            static void delo_truncate_all(void) {
                for (size_t i = 0; i < delo_histories_len; i++) {
                    delo_histories[i].truncate(delo_histories[i].history);
                }
            }

            static void delo_call_push(void) {
                delo_call_stack[delo_stack_depth] = delo_next_call_id++;
                delo_local_events[delo_stack_depth] = 0;
                delo_stack_depth++;
            }

            static void delo_call_pop(void) {
                delo_stack_depth--;
            }

            static DeloEventId delo_capture_event_id(void) {
                DeloEventId id;
                id.call_path = (size_t*)malloc(sizeof(size_t) * delo_stack_depth);
                memcpy(id.call_path, delo_call_stack, sizeof(size_t) * delo_stack_depth);
                id.call_path_len = delo_stack_depth;
                id.local_event = delo_local_events[delo_stack_depth - 1];
                return id;
            }

            static bool delo_event_id_eq(DeloEventId a, DeloEventId b) {
                if (a.call_path_len != b.call_path_len) return false;
                if (a.local_event != b.local_event) return false;
                for (size_t i = 0; i < a.call_path_len; i++) {
                    if (a.call_path[i] != b.call_path[i]) return false;
                }
                return true;
            }

            static bool delo_at_resume_event(DeloEventId current) {
                return delo_event_id_eq(current, delo_resume_event);
            }

            static void delo_increment_local_event(void) {
                delo_local_events[delo_stack_depth - 1]++;
            }

            static void delo_trigger_replay(DeloEventId resume_event) {
                delo_resume_event = resume_event;
                delo_replay_mode = true;
                delo_stack_depth = 1;
                delo_call_stack[0] = 1;
                delo_local_events[0] = 0;
                delo_next_call_id = 2;
                delo_reset_all_cursors();
                longjmp(delo_restart_env, 1);
            }

        "#;

/// The C function that concatenates two strings.
pub const STRING_CONCAT_HELPER: &'static str = r#"
            const char* string_concat(const char* a, const char* b) {
                size_t len_a = strlen(a);
                size_t len_b = strlen(b);
                char* result = (char*)malloc(len_a + len_b + 1);
                if (!result) { fprintf(stderr, "Out of memory in string_concat\n"); exit(1); }
                memcpy(result, a, len_a);
                memcpy(result + len_a, b, len_b);
                result[len_a + len_b] = '\0';
                return result;
            }

        "#;

/// The C function that repeats a string.
pub const STRING_REPEAT_HELPER: &'static str = r#"
            const char* string_repeat(const char* s, int n) {
                if (n <= 0) {
                    char* empty = (char*)malloc(1);
                    if (!empty) { fprintf(stderr, "Out of memory in string_repeat\n"); exit(1); }
                    empty[0] = '\0';
                    return empty;
                }
                size_t len = strlen(s);
                size_t total = len * (size_t)n;
                char* result = (char*)malloc(total + 1);
                if (!result) { fprintf(stderr, "Out of memory in string_repeat\n"); exit(1); }
                for (int i = 0; i < n; ++i) { memcpy(result + i * len, s, len); }
                result[total] = '\0';
                return result;
            }

        "#;

/// The C function that raises an integer to a power.
pub const INT_POW_HELPER: &'static str = r#"
            int int_pow(int base, int exp) {
                int result = 1;
                if (exp < 0) { return 0; }
                while (exp > 0) {
                    if (exp & 1) { result *= base; }
                    base *= base;
                    exp >>= 1;
                }
                return result;
            }

        "#;

/// The C hash functions for map keys.
pub const HASH_HELPERS: &'static str = r#"
            // SipHash-1-3 (https://github.com/veorq/SipHash)
            static uint8_t delo_siphash_key[16];

            static void delo_init_siphash_key(void) {
            #ifdef _WIN32
                if (BCryptGenRandom(NULL, delo_siphash_key, 16, BCRYPT_USE_SYSTEM_PREFERRED_RNG) != 0) {
                    fprintf(stderr, "Failed to obtain random bytes for SipHash key\n");
                    exit(1);
                }
            #else
                int fd = open("/dev/urandom", O_RDONLY);
                if (fd < 0) {
                    fprintf(stderr, "Failed to open /dev/urandom for SipHash key\n");
                    exit(1);
                }
                size_t total = 0;
                while (total < 16) {
                    ssize_t got = read(fd, delo_siphash_key + total, 16 - total);
                    if (got <= 0) {
                        close(fd);
                        fprintf(stderr, "Failed to read random bytes for SipHash key\n");
                        exit(1);
                    }
                    total += (size_t)got;
                }
                close(fd);
            #endif
            }

            #define ROTL(x, b) (uint64_t)(((x) << (b)) | ((x) >> (64 - (b))))

            #define U8TO64_LE(p)                                                           \
                (((uint64_t)((p)[0])) | ((uint64_t)((p)[1]) << 8) |                        \
                 ((uint64_t)((p)[2]) << 16) | ((uint64_t)((p)[3]) << 24) |                 \
                 ((uint64_t)((p)[4]) << 32) | ((uint64_t)((p)[5]) << 40) |                 \
                 ((uint64_t)((p)[6]) << 48) | ((uint64_t)((p)[7]) << 56))

            #define SIPROUND                                                               \
                do {                                                                       \
                    v0 += v1;                                                              \
                    v1 = ROTL(v1, 13);                                                     \
                    v1 ^= v0;                                                              \
                    v0 = ROTL(v0, 32);                                                     \
                    v2 += v3;                                                              \
                    v3 = ROTL(v3, 16);                                                     \
                    v3 ^= v2;                                                              \
                    v0 += v3;                                                              \
                    v3 = ROTL(v3, 21);                                                     \
                    v3 ^= v0;                                                              \
                    v2 += v1;                                                              \
                    v1 = ROTL(v1, 17);                                                     \
                    v1 ^= v2;                                                              \
                    v2 = ROTL(v2, 32);                                                     \
                } while (0)

            size_t delo_siphash13(const void *in, const size_t inlen) {
                const unsigned char *ni = (const unsigned char *)in;
                const unsigned char *kk = (const unsigned char *)delo_siphash_key;

                uint64_t v0 = UINT64_C(0x736f6d6570736575);
                uint64_t v1 = UINT64_C(0x646f72616e646f6d);
                uint64_t v2 = UINT64_C(0x6c7967656e657261);
                uint64_t v3 = UINT64_C(0x7465646279746573);
                uint64_t k0 = U8TO64_LE(kk);
                uint64_t k1 = U8TO64_LE(kk + 8);
                uint64_t m;
                const unsigned char *end = ni + inlen - (inlen % sizeof(uint64_t));
                const int left = inlen & 7;
                uint64_t b = ((uint64_t)inlen) << 56;
                v3 ^= k1;
                v2 ^= k0;
                v1 ^= k1;
                v0 ^= k0;

                for (; ni != end; ni += 8) {
                    m = U8TO64_LE(ni);
                    v3 ^= m;

                    SIPROUND;

                    v0 ^= m;
                }

                switch (left) {
                case 7:
                    b |= ((uint64_t)ni[6]) << 48;
                    /* FALLTHRU */
                case 6:
                    b |= ((uint64_t)ni[5]) << 40;
                    /* FALLTHRU */
                case 5:
                    b |= ((uint64_t)ni[4]) << 32;
                    /* FALLTHRU */
                case 4:
                    b |= ((uint64_t)ni[3]) << 24;
                    /* FALLTHRU */
                case 3:
                    b |= ((uint64_t)ni[2]) << 16;
                    /* FALLTHRU */
                case 2:
                    b |= ((uint64_t)ni[1]) << 8;
                    /* FALLTHRU */
                case 1:
                    b |= ((uint64_t)ni[0]);
                    break;
                case 0:
                    break;
                }

                v3 ^= b;

                SIPROUND;

                v0 ^= b;

                v2 ^= 0xff;

                SIPROUND;
                SIPROUND;
                SIPROUND;

                b = v0 ^ v1 ^ v2 ^ v3;
                return (size_t)b;
            }

            #undef SIPROUND
            #undef U8TO64_LE
            #undef ROTL

            size_t int_hash(uint64_t x) {
                return delo_siphash13(&x, sizeof(x));
            }

            size_t double_hash(double x) {
                return delo_siphash13(&x, sizeof(x));
            }

            size_t string_hash(const char* s) {
                return delo_siphash13(s, strlen(s));
            }

        "#;

/// The C functions that print primitive values.
pub const FORMAT_PRIMITIVES: &'static str = r#"
            void format_int(int x, FILE* stream) {
                fprintf(stream, "%d", x);
            }

            void format_double(double x, FILE* stream) {
                fprintf(stream, "%g", x);
            }

            void format_bool(bool b, FILE* stream) {
                fprintf(stream, "%s", b ? "True" : "False");
            }

            void format_string(const char* s, FILE* stream) {
                fprintf(stream, "%s", s);
            }

            void format_Fn(Fn f, FILE* stream) {
                fprintf(stream, "<function at %p>", f.fn);
            }

        "#;

impl CodeGenerator {
    /// Writes the time-travel runtime: event ids, the registry of histories, and the replay machinery.
    pub fn write_time_travel_runtime(&mut self)
        ensures
            final(self).text() == old(self).text() + raw_text(TIME_TRAVEL_RUNTIME@),
            final(self).level() == old(self).level(),
            final(self).temps() == old(self).temps(),
            final(self).recorded() == old(self).recorded(),
            final(self).histories() == old(self).histories(),
            final(self).wf() == old(self).wf(),
    {
        self.write_raw(TIME_TRAVEL_RUNTIME);
    }

    /// Writes the C function that concatenates two strings.
    pub fn write_string_concat_helper(&mut self)
        ensures
            final(self).text() == old(self).text() + raw_text(STRING_CONCAT_HELPER@),
            final(self).level() == old(self).level(),
            final(self).temps() == old(self).temps(),
            final(self).recorded() == old(self).recorded(),
            final(self).histories() == old(self).histories(),
            final(self).wf() == old(self).wf(),
    {
        self.write_raw(STRING_CONCAT_HELPER);
    }

    /// Writes the C function that repeats a string.
    pub fn write_string_repeat_helper(&mut self)
        ensures
            final(self).text() == old(self).text() + raw_text(STRING_REPEAT_HELPER@),
            final(self).level() == old(self).level(),
            final(self).temps() == old(self).temps(),
            final(self).recorded() == old(self).recorded(),
            final(self).histories() == old(self).histories(),
            final(self).wf() == old(self).wf(),
    {
        self.write_raw(STRING_REPEAT_HELPER);
    }

    /// Writes the C function that raises an integer to a power.
    pub fn write_int_pow_helper(&mut self)
        ensures
            final(self).text() == old(self).text() + raw_text(INT_POW_HELPER@),
            final(self).level() == old(self).level(),
            final(self).temps() == old(self).temps(),
            final(self).recorded() == old(self).recorded(),
            final(self).histories() == old(self).histories(),
            final(self).wf() == old(self).wf(),
    {
        self.write_raw(INT_POW_HELPER);
    }

    /// Writes the C hash functions for map keys.
    pub fn write_hash_helpers(&mut self)
        ensures
            final(self).text() == old(self).text() + raw_text(HASH_HELPERS@),
            final(self).level() == old(self).level(),
            final(self).temps() == old(self).temps(),
            final(self).recorded() == old(self).recorded(),
            final(self).histories() == old(self).histories(),
            final(self).wf() == old(self).wf(),
    {
        self.write_raw(HASH_HELPERS);
    }

    /// Writes the C functions that print primitive values.
    pub fn write_format_primitives(&mut self)
        ensures
            final(self).text() == old(self).text() + raw_text(FORMAT_PRIMITIVES@),
            final(self).level() == old(self).level(),
            final(self).temps() == old(self).temps(),
            final(self).recorded() == old(self).recorded(),
            final(self).histories() == old(self).histories(),
            final(self).wf() == old(self).wf(),
    {
        self.write_raw(FORMAT_PRIMITIVES);
    }

    /// Writes the C helper functions for strings, powers, hashing and
    /// printing.
    pub fn write_helper_functions(&mut self)
        ensures
            final(self).text() == old(self).text() + raw_text(STRING_CONCAT_HELPER@) + raw_text(STRING_REPEAT_HELPER@)
                + raw_text(INT_POW_HELPER@) + raw_text(HASH_HELPERS@) + raw_text(FORMAT_PRIMITIVES@),
            final(self).level() == old(self).level(),
            final(self).temps() == old(self).temps(),
            final(self).recorded() == old(self).recorded(),
            final(self).histories() == old(self).histories(),
            final(self).wf() == old(self).wf(),
    {
        self.write_string_concat_helper();
        self.write_string_repeat_helper();
        self.write_int_pow_helper();
        self.write_hash_helpers();
        self.write_format_primitives();
    }
}

} // verus!
