//! The NT-personality call surface: call numbers, export tables, status codes
//! and the two dispatchers.
use vstd::prelude::*;

verus! {

/// `rax` values `NT_BASE ..= NT_BASE | 0xFFFF` are NT-personality calls.
pub const NT_BASE: u64 = 0x4E54_0000;

pub const NT_EXITPROCESS: u16 = 0;

pub const NT_GETSTDHANDLE: u16 = 1;

pub const NT_WRITEFILE: u16 = 2;

pub const NT_GETLASTERROR: u16 = 3;

pub const NT_SETLASTERROR: u16 = 4;

pub const NT_CREATEFILEA: u16 = 5;

pub const NT_READFILE: u16 = 6;

pub const NT_CLOSEHANDLE: u16 = 7;

pub const NT_GETCOMMANDLINEA: u16 = 8;

pub const NT_GETMODULEHANDLEA: u16 = 9;

pub const NT_VIRTUALALLOC: u16 = 10;

pub const NT_VIRTUALFREE: u16 = 11;

pub const NT_VIRTUALPROTECT: u16 = 12;

pub const NT_GETPROCESSHEAP: u16 = 13;

pub const NT_HEAPALLOC: u16 = 14;

pub const NT_HEAPFREE: u16 = 15;

pub const NT_GETPROCADDRESS: u16 = 16;

pub const NT_LOADLIBRARYA: u16 = 17;

/// How many `kernel32` exports there are.
pub const NT_STUB_COUNT: u16 = 18;

pub const NT_NTCLOSE: u16 = 0;

pub const NT_NTWRITEFILE: u16 = 1;

pub const NT_NTREADFILE: u16 = 2;

pub const NT_NTALLOCATEVIRTUALMEMORY: u16 = 3;

pub const NT_NTFREEVIRTUALMEMORY: u16 = 4;

pub const NT_NTPROTECTVIRTUALMEMORY: u16 = 5;

pub const NT_NTTERMINATEPROCESS: u16 = 6;

pub const NT_LDRGETPROCEDUREADDRESS: u16 = 7;

pub const NT_LDRLOADDLL: u16 = 8;

pub const NT_NTQUERYINFORMATIONPROCESS: u16 = 9;

pub const NT_NTQUERYVIRTUALMEMORY: u16 = 10;

pub const NT_NTSETINFORMATIONTHREAD: u16 = 11;

pub const NT_NTSETINFORMATIONPROCESS: u16 = 12;

pub const NT_NTCREATEEVENT: u16 = 13;

pub const NT_NTWAITFORSINGLEOBJECT: u16 = 14;

pub const NT_NTSETEVENT: u16 = 15;

pub const NT_NTRESETEVENT: u16 = 16;

pub const NT_NTCONTINUE: u16 = 17;

pub const NT_RTLADDVECTOREDEXCEPTIONHANDLER: u16 = 18;

pub const NT_RTLREMOVEVECTOREDEXCEPTIONHANDLER: u16 = 19;

pub const NT_NTQUEUEAPCTHREAD: u16 = 20;

pub const NT_NTTESTALERT: u16 = 21;

pub const NT_NTCREATEKEY: u16 = 22;

pub const NT_NTOPENKEY: u16 = 23;

pub const NT_NTSETVALUEKEY: u16 = 24;

pub const NT_NTQUERYVALUEKEY: u16 = 25;

pub const NT_NTDELETEKEY: u16 = 26;

/// How many `ntdll` exports there are.
pub const NTDLL_STUB_COUNT: u16 = 27;

/// Selector bit of the native (`ntdll`) layer.
pub const NT_NTDLL_FLAG: u16 = 0x8000;

/// The `kernel32` export table, in call-number order.
pub const NT_EXPORTS: [&'static str; 18] = ["ExitProcess", "GetStdHandle", "WriteFile", "GetLastError", "SetLastError", "CreateFileA", "ReadFile", "CloseHandle", "GetCommandLineA", "GetModuleHandleA", "VirtualAlloc", "VirtualFree", "VirtualProtect", "GetProcessHeap", "HeapAlloc", "HeapFree", "GetProcAddress", "LoadLibraryA"];

/// The `ntdll` service table: the position is the service number.
pub const NTDLL_EXPORTS: [&'static str; 27] = ["NtClose", "NtWriteFile", "NtReadFile", "NtAllocateVirtualMemory", "NtFreeVirtualMemory", "NtProtectVirtualMemory", "NtTerminateProcess", "LdrGetProcedureAddress", "LdrLoadDll", "NtQueryInformationProcess", "NtQueryVirtualMemory", "NtSetInformationThread", "NtSetInformationProcess", "NtCreateEvent", "NtWaitForSingleObject", "NtSetEvent", "NtResetEvent", "NtContinue", "RtlAddVectoredExceptionHandler", "RtlRemoveVectoredExceptionHandler", "NtQueueApcThread", "NtTestAlert", "NtCreateKey", "NtOpenKey", "NtSetValueKey", "NtQueryValueKey", "NtDeleteKey"];

} // verus!
